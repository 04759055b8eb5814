//! The asset total in a wallet report: one `- assets: <n>` line per note.

use vstd::prelude::*;
use vstd::string::{StrSliceExecFns, StringExecFns};
use regex::Regex;

verus! {

#[verifier::external_type_specification]
#[verifier::external_body]
pub struct ExRegexError(regex::Error);

/// A character of Unicode's White_Space property.
pub open spec fn is_white_space(c: char) -> bool {
    ||| '\u{9}' <= c <= '\u{d}'
    ||| c == ' '
    ||| c == '\u{85}'
    ||| c == '\u{a0}'
    ||| c == '\u{1680}'
    ||| '\u{2000}' <= c <= '\u{200a}'
    ||| c == '\u{2028}'
    ||| c == '\u{2029}'
    ||| c == '\u{202f}'
    ||| c == '\u{205f}'
    ||| c == '\u{3000}'
}

/// A text without its leading white space.
pub open spec fn trim_start(s: Seq<char>) -> Seq<char>
    decreases s.len(),
{
    if s.len() > 0 && is_white_space(s[0]) {
        trim_start(s.drop_first())
    } else {
        s
    }
}

/// A text without its trailing white space.
pub open spec fn trim_end(s: Seq<char>) -> Seq<char>
    decreases s.len(),
{
    if s.len() > 0 && is_white_space(s.last()) {
        trim_end(s.drop_last())
    } else {
        s
    }
}

/// A text without its leading and trailing white space.
pub open spec fn trimmed(s: Seq<char>) -> Seq<char> {
    trim_end(trim_start(s))
}

/// What `str::to_lowercase` makes of a text.
pub uninterp spec fn lowercased(s: Seq<char>) -> Seq<char>;

/// A line without the carriage return that ends it, if one does.
pub open spec fn without_cr(l: Seq<char>) -> Seq<char> {
    if l.len() > 0 && l.last() == '\r' {
        l.drop_last()
    } else {
        l
    }
}

/// The lines of `rest`, where the line being read so far is `cur`: a line
/// ends at a newline or at a carriage return and newline; the last line
/// needs no line end, and an empty one after the last line end is none.
pub open spec fn lines_from(cur: Seq<char>, rest: Seq<char>) -> Seq<Seq<char>>
    decreases rest.len(),
{
    if rest.len() == 0 {
        if cur.len() == 0 {
            Seq::empty()
        } else {
            seq![cur]
        }
    } else if rest[0] == '\n' {
        seq![without_cr(cur)] + lines_from(Seq::empty(), rest.drop_first())
    } else {
        lines_from(cur.push(rest[0]), rest.drop_first())
    }
}

/// The lines of a text, in order.
pub open spec fn lines_of(s: Seq<char>) -> Seq<Seq<char>> {
    lines_from(Seq::empty(), s)
}

/// The text of the first capture group of the leftmost match of a regular
/// expression in a text, if it matches.
pub uninterp spec fn regex_group(pattern: Seq<char>, text: Seq<char>) -> Option<Seq<char>>;

/// Relies on `str::trim`: leading and trailing characters of Unicode's
/// White_Space property removed.
#[verifier::external_body]
fn trim<'a>(s: &'a str) -> (r: &'a str)
    ensures
        r@ == trimmed(s@),
{
    s.trim()
}

/// Relies on `str::to_lowercase`: the result depends on the characters alone.
#[verifier::external_body]
fn to_lowercase(s: &str) -> (r: String)
    ensures
        r@ == lowercased(s@),
{
    s.to_lowercase()
}

/// Relies on `str::lines`: lines end at `\n` or `\r\n`, line ends are not
/// part of the lines, and the last line end is optional.
#[verifier::external_body]
fn split_lines(s: &str) -> (r: Vec<String>)
    ensures
        r@.map_values(|l: String| l@) == lines_of(s@),
{
    s.lines().map(|l| l.to_string()).collect()
}

/// Relies on `regex::Regex::new`, `Regex::captures` and `Captures::get`:
/// where the pattern compiles, the text of the first group of the leftmost
/// match, which depends on the pattern and the text alone.
#[verifier::external_body]
fn first_group(pattern: &str, text: &str) -> (r: Result<Option<String>, regex::Error>)
    ensures
        r is Ok ==> capture_view(r->Ok_0) == regex_group(pattern@, text@),
{
    let re = Regex::new(pattern)?;
    Ok(re.captures(text).and_then(|c| c.get(1)).map(|m| m.as_str().to_string()))
}

/// The text of a captured field, if any.
pub open spec fn capture_view(c: Option<String>) -> Option<Seq<char>> {
    match c {
        Some(s) => Some(s@),
        None => None,
    }
}

/// The pattern of a line that reports a note's assets.
pub open spec fn asset_pattern() -> Seq<char> {
    "^- assets: (\\d+)\\s*$"@
}

/// What one report line gives once trimmed: nothing where it is empty or
/// holds an escape character, else the count field its lowercase form
/// matches, if any.
pub open spec fn line_capture(line: Seq<char>) -> Option<Seq<char>> {
    let t = trimmed(line);
    if t.len() == 0 || t.contains('\u{1b}') {
        None
    } else {
        regex_group(asset_pattern(), lowercased(t))
    }
}

/// What each line of a report gives, in order.
pub open spec fn report_captures(output: Seq<char>) -> Seq<Option<Seq<char>>> {
    lines_of(output).map_values(|l: Seq<char>| line_capture(l))
}

/// Why a run of captured counts has no total.
pub enum SumFault {
    /// A captured field is no digit run that fits in a machine word.
    BadCount,
    /// The running total does not fit in a machine word.
    Overflow,
}

/// Adding up captured counts in order, stopping at the first fault.
pub open spec fn sum_outcome(cs: Seq<Option<Seq<char>>>) -> Result<nat, SumFault>
    decreases cs.len(),
{
    if cs.len() == 0 {
        Ok(0)
    } else {
        match sum_outcome(cs.drop_last()) {
            Err(f) => Err(f),
            Ok(t) => match cs.last() {
                None => Ok(t),
                Some(d) => match count_of(d) {
                    None => Err(SumFault::BadCount),
                    Some(v) => if t + v > u64::MAX {
                        Err(SumFault::Overflow)
                    } else {
                        Ok(t + v)
                    },
                },
            },
        }
    }
}

/// What adding up captured counts returns: the total, or the text of the
/// first fault.
pub open spec fn sum_reported(cs: Seq<Option<Seq<char>>>, r: Result<u64, String>) -> bool {
    match sum_outcome(cs) {
        Ok(t) => r is Ok && r->Ok_0 == t,
        Err(SumFault::BadCount) => r is Err && "Failed to parse assets: "@.is_prefix_of(
            r->Err_0@,
        ),
        Err(SumFault::Overflow) => r is Err && r->Err_0@ == "Asset total overflows"@,
    }
}

/// A non-empty run of ASCII decimal digits.
pub open spec fn is_digit_run(s: Seq<char>) -> bool {
    s.len() > 0 && forall|i: int| 0 <= i < s.len() ==> '0' <= #[trigger] s[i] <= '9'
}

/// The number that a run of decimal digits stands for.
pub open spec fn digits_value(s: Seq<char>) -> nat
    decreases s.len(),
{
    if s.len() == 0 {
        0
    } else {
        (digits_value(s.drop_last()) * 10 + (s.last() as u32 - 48)) as nat
    }
}

/// The count a captured field stands for, where it is a digit run that fits
/// in a machine word.
pub open spec fn count_of(s: Seq<char>) -> Option<nat> {
    if is_digit_run(s) && digits_value(s) <= u64::MAX {
        Some(digits_value(s))
    } else {
        None
    }
}

/// The texts of captured fields.
pub open spec fn capture_views(cs: Seq<Option<String>>) -> Seq<Option<Seq<char>>> {
    cs.map_values(|c: Option<String>| capture_view(c))
}

/// Digits read so far never stand for more than all of them.
proof fn lemma_digits_grow(s: Seq<char>, i: int)
    requires
        0 <= i <= s.len(),
        is_digit_run(s),
    ensures
        digits_value(s.take(i)) <= digits_value(s),
    decreases s.len() - i,
{
    if i < s.len() {
        let t = s.take(i + 1);
        assert(t.drop_last() =~= s.take(i));
        assert('0' <= s[i] <= '9');
        lemma_digits_grow(s, i + 1);
    } else {
        assert(s.take(i) =~= s);
    }
}

/// The count that a run of ASCII digits stands for.
pub fn parse_count(s: &str) -> (r: Result<u64, String>)
    ensures
        match count_of(s@) {
            Some(v) => r is Ok && r->Ok_0 == v,
            None => r is Err,
        },
{
    let n = s.unicode_len();
    if n == 0 {
        return Err(String::from_str("cannot parse integer from empty string"));
    }
    let mut v: u64 = 0;
    let mut i: usize = 0;
    while i < n
        invariant
            n == s@.len(),
            i <= n,
            forall|k: int| 0 <= k < i ==> '0' <= #[trigger] s@[k] <= '9',
            v == digits_value(s@.take(i as int)),
        decreases n - i,
    {
        let c = s.get_char(i);
        if !('0' <= c && c <= '9') {
            return Err(String::from_str("invalid digit found in string"));
        }
        let d = (c as u32 - 48) as u64;
        let ghost t = s@.take(i + 1);
        proof {
            assert(t.drop_last() =~= s@.take(i as int));
        }
        if v > (u64::MAX - d) / 10 {
            proof {
                if is_digit_run(s@) {
                    lemma_digits_grow(s@, i + 1);
                }
            }
            return Err(String::from_str("number too large to fit in target type"));
        }
        v = v * 10 + d;
        i = i + 1;
    }
    assert(s@.take(n as int) =~= s@);
    Ok(v)
}

/// A fault in a run of counts is the fault of any longer run.
proof fn lemma_fault_stays(cs: Seq<Option<Seq<char>>>, i: int)
    requires
        0 <= i <= cs.len(),
        sum_outcome(cs.take(i)) is Err,
    ensures
        sum_outcome(cs) == sum_outcome(cs.take(i)),
    decreases cs.len() - i,
{
    if i < cs.len() {
        let t = cs.take(i + 1);
        assert(t.drop_last() =~= cs.take(i));
        lemma_fault_stays(cs, i + 1);
    } else {
        assert(cs.take(i) =~= cs);
    }
}

/// Adds up the counts that report lines gave, in order, stopping at the
/// first count that is no digit run fitting in a machine word, or at a total
/// that does not fit.
pub fn total_assets(captures: &Vec<Option<String>>) -> (r: Result<u64, String>)
    ensures
        sum_reported(capture_views(captures@), r),
{
    let ghost cs = capture_views(captures@);
    let mut total: u64 = 0;
    let mut i: usize = 0;
    while i < captures.len()
        invariant
            i <= captures@.len(),
            cs == capture_views(captures@),
            sum_outcome(cs.take(i as int)) == Ok::<nat, SumFault>(total as nat),
        decreases captures@.len() - i,
    {
        let ghost t = cs.take(i + 1);
        proof {
            assert(t.drop_last() =~= cs.take(i as int));
            assert(t.last() == cs[i as int]);
        }
        match &captures[i] {
            None => {},
            Some(text) => {
                let count = match parse_count(text.as_str()) {
                    Ok(c) => c,
                    Err(e) => {
                        proof {
                            lemma_fault_stays(cs, i + 1);
                        }
                        let lead = "Failed to parse assets: ";
                        let mut msg = String::from_str(lead);
                        msg.append(e.as_str());
                        assert(lead@.is_prefix_of(msg@)) by {
                            assert(msg@.subrange(0, lead@.len() as int) =~= lead@);
                        }
                        return Err(msg);
                    },
                };
                if total > u64::MAX - count {
                    proof {
                        lemma_fault_stays(cs, i + 1);
                    }
                    return Err(String::from_str("Asset total overflows"));
                }
                total = total + count;
            },
        }
        i = i + 1;
    }
    assert(cs.take(i as int) =~= cs);
    Ok(total)
}

/// The asset total in a wallet report. Lines are trimmed; empty ones and
/// ones holding an escape character are skipped; the rest are lowercased and
/// matched against `- assets: <digits>`.
pub fn parse_nockchain_output(output: &str) -> (r: Result<u64, String>)
    ensures
        trimmed(output@).len() == 0 ==> r is Err && r->Err_0@ == "Empty command output"@,
        trimmed(output@).len() != 0 ==> (r is Err && r->Err_0@ == "Regex error"@) || sum_reported(
            report_captures(output@),
            r,
        ),
{
    if trim(output).unicode_len() == 0 {
        return Err(String::from_str("Empty command output"));
    }
    let pattern = "^- assets: (\\d+)\\s*$";
    let lines = split_lines(output);
    let ghost want = report_captures(output@);
    let mut captures: Vec<Option<String>> = Vec::new();
    let mut i: usize = 0;
    while i < lines.len()
        invariant
            i <= lines@.len(),
            trimmed(output@).len() != 0,
            lines@.map_values(|l: String| l@) == lines_of(output@),
            want == report_captures(output@),
            pattern@ == asset_pattern(),
            capture_views(captures@) == want.take(i as int),
        decreases lines@.len() - i,
    {
        assert(lines_of(output@)[i as int] == lines@[i as int]@);
        let line = trim(lines[i].as_str());
        let found = if line.unicode_len() != 0 && !has_escape(line) {
            let lower = to_lowercase(line);
            match first_group(pattern, lower.as_str()) {
                Ok(c) => c,
                Err(_) => return Err(String::from_str("Regex error")),
            }
        } else {
            None
        };
        assert(capture_view(found) == want[i as int]);
        let ghost before = captures@;
        captures.push(found);
        assert(capture_views(captures@) =~= want.take(i + 1)) by {
            assert(capture_views(captures@) =~= capture_views(before).push(capture_view(found)));
        }
        i = i + 1;
    }
    assert(want.take(i as int) =~= want);
    total_assets(&captures)
}

/// Whether a text holds the escape character.
fn has_escape(s: &str) -> (r: bool)
    ensures
        r == s@.contains('\u{1b}'),
{
    let n = s.unicode_len();
    let mut i: usize = 0;
    while i < n
        invariant
            n == s@.len(),
            i <= n,
            forall|k: int| 0 <= k < i ==> s@[k] != '\u{1b}',
        decreases n - i,
    {
        if s.get_char(i) == '\u{1b}' {
            return true;
        }
        i = i + 1;
    }
    false
}

} // verus!
