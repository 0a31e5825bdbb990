//! Human-readable text for verify reports and witness records.

use vstd::prelude::*;
use crate::members::MembersResult;
use crate::self_hash::HashDetail;
use crate::text::{chars_of, nat_text, push_char, push_nat, push_text, text_eq};
use crate::witness::WitnessRecord;

verus! {

/// The number of bytes that UTF-8 takes for a character.
pub open spec fn utf8_width(c: char) -> nat {
    let u = c as u32;
    if u < 0x80 { 1 } else if u < 0x800 { 2 } else if u < 0x10000 { 3 } else { 4 }
}

/// The characters of `t` that make up its first `n` bytes, when `n` bytes
/// end on a character boundary.
pub open spec fn byte_prefix(t: Seq<char>, n: nat) -> Option<Seq<char>>
    decreases t.len(),
{
    if n == 0 {
        Some(seq![])
    } else if t.len() == 0 || utf8_width(t[0]) > n {
        None
    } else {
        match byte_prefix(t.drop_first(), (n - utf8_width(t[0])) as nat) {
            Some(p) => Some(seq![t[0]] + p),
            None => None,
        }
    }
}

/// The first bytes of a text, or `?` when they do not end on a character.
pub open spec fn hash_head(t: Seq<char>) -> Seq<char> {
    match byte_prefix(t, 15) {
        Some(p) => p,
        None => "?"@,
    }
}

fn width(c: char) -> (r: usize)
    ensures
        r == utf8_width(c),
{
    let u = c as u32;
    if u < 0x80 { 1 } else if u < 0x800 { 2 } else if u < 0x10000 { 3 } else { 4 }
}

/// The first 15 bytes of the stored hash as text, or `?`.
pub fn head_of(t: &str) -> (r: String)
    ensures
        r@ == hash_head(t@),
{
    let cs = chars_of(t);
    let mut out = String::new();
    let mut n: usize = 15;
    let mut i: usize = 0;
    assert(cs@.skip(0) =~= cs@);
    while n > 0 && i < cs.len() && width(cs[i]) <= n
        invariant
            i <= cs@.len(),
            cs@ == t@,
            n <= 15,
            byte_prefix(t@, 15) == match byte_prefix(cs@.skip(i as int), n as nat) {
                Some(p) => Some(out@ + p),
                None => None,
            },
        decreases n,
    {
        let ghost rest = cs@.skip(i as int);
        assert(rest.drop_first() =~= cs@.skip(i + 1));
        assert(rest[0] == cs@[i as int]);
        let ghost before = out@;
        push_char(&mut out, cs[i]);
        n = n - width(cs[i]);
        i = i + 1;
        proof {
            match byte_prefix(cs@.skip(i as int), n as nat) {
                Some(p) => assert(before + (seq![rest[0]] + p) =~= out@ + p),
                None => {},
            }
        }
    }
    proof { reveal_strlit("?"); }
    if n == 0 {
        assert(out@ + seq![] =~= out@);
        out
    } else {
        assert(byte_prefix(cs@.skip(i as int), n as nat) is None);
        let mut q = String::new();
        push_text(&mut q, "?");
        q
    }
}

/// The text of a verify report for a reader.
pub open spec fn human_text(
    lockfile: Seq<char>,
    stored: Seq<char>,
    computed: Seq<char>,
    valid: bool,
    members: Option<MembersResult>,
    outcome: Seq<char>,
) -> Seq<char> {
    if outcome == "VERIFY_OK"@ {
        match members {
            Some(m) => "\u{2713} "@ + lockfile + ": self-hash valid ("@ + hash_head(stored) + "...), "@
                + nat_text(m.verified as nat) + "/"@ + nat_text(m.checked as nat) + " members verified"@,
            None => "\u{2713} "@ + lockfile + ": self-hash valid ("@ + hash_head(stored) + "...)"@,
        }
    } else if outcome == "VERIFY_FAILED"@ {
        if !valid {
            "\u{2717} "@ + lockfile + ": self-hash TAMPERED\n  stored:   "@ + stored + "\n  computed: "@ + computed
        } else {
            match members {
                Some(m) => "\u{2717} "@ + lockfile + ": "@ + nat_text(m.failed as nat) + " of "@
                    + nat_text(m.checked as nat) + " members failed ("@ + nat_text(m.verified as nat)
                    + " verified)"@ + failure_lines(m.failures@),
                None => "\u{2717} "@ + lockfile + ": VERIFY_FAILED"@,
            }
        }
    } else if outcome == "VERIFY_PARTIAL"@ {
        match members {
            Some(m) => "\u{26A0} "@ + lockfile + ": "@ + nat_text(m.verified as nat) + " verified, "@
                + nat_text(m.skipped as nat) + " skipped"@ + skip_lines(m.skips@),
            None => "\u{26A0} "@ + lockfile + ": VERIFY_PARTIAL"@,
        }
    } else {
        "? "@ + lockfile + ": unknown outcome "@ + outcome
    }
}

/// One line per failure: `  REASON: path`.
pub open spec fn failure_lines(fs: Seq<crate::members::MemberFailure>) -> Seq<char>
    decreases fs.len(),
{
    if fs.len() == 0 {
        seq![]
    } else {
        failure_lines(fs.drop_last()) + "\n  "@ + fs.last().reason@ + ": "@ + fs.last().path@
    }
}

/// One line per skip: `  REASON: path (detail)`.
pub open spec fn skip_lines(ss: Seq<crate::members::MemberSkip>) -> Seq<char>
    decreases ss.len(),
{
    if ss.len() == 0 {
        seq![]
    } else {
        skip_lines(ss.drop_last()) + "\n  "@ + ss.last().reason@ + ": "@ + ss.last().path@ + " ("@
            + ss.last().detail@ + ")"@
    }
}

/// Renders a verify report for a reader.
pub fn render_human(
    lockfile: &str,
    detail: &HashDetail,
    members: Option<&MembersResult>,
    outcome: &str,
) -> (r: String)
    ensures
        r@ == human_text(lockfile@, detail.stored@, detail.computed@, detail.valid, match members {
            Some(m) => Some(*m),
            None => None,
        }, outcome@),
{
    let mut out = String::new();
    if text_eq(outcome, "VERIFY_OK") {
        push_text(&mut out, "\u{2713} ");
        push_text(&mut out, lockfile);
        push_text(&mut out, ": self-hash valid (");
        let head = head_of(detail.stored.as_str());
        push_text(&mut out, head.as_str());
        match members {
            Some(m) => {
                push_text(&mut out, "...), ");
                push_nat(&mut out, m.verified as u128);
                push_text(&mut out, "/");
                push_nat(&mut out, m.checked as u128);
                push_text(&mut out, " members verified");
            },
            None => {
                push_text(&mut out, "...)");
            },
        }
        assert(out@ =~= human_text(lockfile@, detail.stored@, detail.computed@, detail.valid, match members {
            Some(m) => Some(*m),
            None => None,
        }, outcome@));
    } else if text_eq(outcome, "VERIFY_FAILED") {
        push_text(&mut out, "\u{2717} ");
        push_text(&mut out, lockfile);
        if !detail.valid {
            push_text(&mut out, ": self-hash TAMPERED\n  stored:   ");
            push_text(&mut out, detail.stored.as_str());
            push_text(&mut out, "\n  computed: ");
            push_text(&mut out, detail.computed.as_str());
        } else {
            match members {
                Some(m) => {
                    push_text(&mut out, ": ");
                    push_nat(&mut out, m.failed as u128);
                    push_text(&mut out, " of ");
                    push_nat(&mut out, m.checked as u128);
                    push_text(&mut out, " members failed (");
                    push_nat(&mut out, m.verified as u128);
                    push_text(&mut out, " verified)");
                    let mut i: usize = 0;
                    let ghost head = out@;
                    while i < m.failures.len()
                        invariant
                            i <= m.failures@.len(),
                            out@ == head + failure_lines(m.failures@.take(i as int)),
                        decreases m.failures.len() - i,
                    {
                        assert(m.failures@.take(i + 1).drop_last() =~= m.failures@.take(i as int));
                        push_text(&mut out, "\n  ");
                        push_text(&mut out, m.failures[i].reason.as_str());
                        push_text(&mut out, ": ");
                        push_text(&mut out, m.failures[i].path.as_str());
                        i = i + 1;
                    }
                    assert(m.failures@.take(i as int) =~= m.failures@);
                },
                None => {
                    push_text(&mut out, ": VERIFY_FAILED");
                },
            }
        }
        assert(out@ =~= human_text(lockfile@, detail.stored@, detail.computed@, detail.valid, match members {
            Some(m) => Some(*m),
            None => None,
        }, outcome@));
    } else if text_eq(outcome, "VERIFY_PARTIAL") {
        push_text(&mut out, "\u{26A0} ");
        push_text(&mut out, lockfile);
        match members {
            Some(m) => {
                push_text(&mut out, ": ");
                push_nat(&mut out, m.verified as u128);
                push_text(&mut out, " verified, ");
                push_nat(&mut out, m.skipped as u128);
                push_text(&mut out, " skipped");
                let mut i: usize = 0;
                let ghost head = out@;
                while i < m.skips.len()
                    invariant
                        i <= m.skips@.len(),
                        out@ == head + skip_lines(m.skips@.take(i as int)),
                    decreases m.skips.len() - i,
                {
                    assert(m.skips@.take(i + 1).drop_last() =~= m.skips@.take(i as int));
                    push_text(&mut out, "\n  ");
                    push_text(&mut out, m.skips[i].reason.as_str());
                    push_text(&mut out, ": ");
                    push_text(&mut out, m.skips[i].path.as_str());
                    push_text(&mut out, " (");
                    push_text(&mut out, m.skips[i].detail.as_str());
                    push_text(&mut out, ")");
                    i = i + 1;
                }
                assert(m.skips@.take(i as int) =~= m.skips@);
            },
            None => {
                push_text(&mut out, ": VERIFY_PARTIAL");
            },
        }
        assert(out@ =~= human_text(lockfile@, detail.stored@, detail.computed@, detail.valid, match members {
            Some(m) => Some(*m),
            None => None,
        }, outcome@));
    } else {
        push_text(&mut out, "? ");
        push_text(&mut out, lockfile);
        push_text(&mut out, ": unknown outcome ");
        push_text(&mut out, outcome);
        assert(out@ =~= human_text(lockfile@, detail.stored@, detail.computed@, detail.valid, match members {
            Some(m) => Some(*m),
            None => None,
        }, outcome@));
    }
    out
}

/// The text of a refusal for a reader: `✗ CODE: message`.
pub fn render_refusal(code: &str, message: &str) -> (r: String)
    ensures
        r@ == "\u{2717} "@ + code@ + ": "@ + message@,
{
    let mut out = String::new();
    push_text(&mut out, "\u{2717} ");
    push_text(&mut out, code);
    push_text(&mut out, ": ");
    push_text(&mut out, message);
    assert(out@ =~= "\u{2717} "@ + code@ + ": "@ + message@);
    out
}

/// A text, or `?` when absent.
pub open spec fn or_question(o: Option<String>) -> Seq<char> {
    match o {
        Some(s) => s@,
        None => "?"@,
    }
}

/// One line for a witness record: `ts  tool version  outcome (exit code)`.
pub open spec fn record_line(r: WitnessRecord) -> Seq<char> {
    or_question(r.ts) + "  "@ + or_question(r.tool) + " "@ + or_question(r.version) + "  "@
        + or_question(r.outcome) + " (exit "@ + match r.exit_code {
        Some(c) => crate::text::int_text(c as int),
        None => "?"@,
    } + ")"@
}

fn push_or_question(out: &mut String, o: &Option<String>)
    ensures
        final(out)@ == old(out)@ + or_question(*o),
{
    match o {
        Some(s) => push_text(out, s.as_str()),
        None => push_text(out, "?"),
    }
}

/// The one-line summary of a witness record.
pub fn record_summary(r: &WitnessRecord) -> (s: String)
    ensures
        s@ == record_line(*r),
{
    let mut out = String::new();
    push_or_question(&mut out, &r.ts);
    push_text(&mut out, "  ");
    push_or_question(&mut out, &r.tool);
    push_text(&mut out, " ");
    push_or_question(&mut out, &r.version);
    push_text(&mut out, "  ");
    push_or_question(&mut out, &r.outcome);
    push_text(&mut out, " (exit ");
    match r.exit_code {
        Some(c) => crate::text::push_int(&mut out, c as i128),
        None => push_text(&mut out, "?"),
    }
    push_text(&mut out, ")");
    assert(out@ =~= record_line(*r));
    out
}

} // verus!
