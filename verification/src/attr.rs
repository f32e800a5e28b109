//! The attribute reader: load one sysfs-style text file and parse its
//! content as a base-10 integer of the requested signedness.
//!
//! The file's content is expected to be the integer's digits, optionally
//! preceded by a sign and optionally followed by exactly one newline.
//! Nothing else (no other whitespace) is tolerated.

use vstd::prelude::*;

verus! {

/// Why a single attribute read failed.
#[derive(Debug)]
pub enum AttrError {
    /// The attribute file could not be read at all; carries the attempted path.
    ReadFailure(String),
    /// The file's text is not a valid integer of the requested signedness;
    /// carries the offending raw text.
    ParseFailure(String),
}

/// `c` is an ASCII decimal digit.
pub open spec fn is_digit_char(c: char) -> bool {
    48 <= c as int && c as int <= 57
}

/// Numeric value of one decimal digit character.
pub open spec fn digit_val(c: char) -> int {
    c as int - 48
}

/// Every character of `s` is a decimal digit.
pub open spec fn all_digits(s: Seq<char>) -> bool {
    forall|i: int| 0 <= i < s.len() ==> is_digit_char(#[trigger] s[i])
}

/// The base-10 value of a digit string, most significant digit first.
pub open spec fn digits_val(s: Seq<char>) -> int
    decreases s.len(),
{
    if s.len() == 0 {
        0
    } else {
        digits_val(s.drop_last()) * 10 + digit_val(s.last())
    }
}

/// Strip exactly one trailing newline, if present.
pub open spec fn trim_newline(s: Seq<char>) -> Seq<char> {
    if s.len() > 0 && s.last() == '\n' {
        s.drop_last()
    } else {
        s
    }
}

/// The digits of an unsigned numeral: a leading `+` is accepted and dropped.
pub open spec fn unsigned_body(t: Seq<char>) -> Seq<char> {
    if t.len() > 0 && t[0] == '+' {
        t.skip(1)
    } else {
        t
    }
}

/// `t` (already newline-trimmed) is a valid `u32` numeral.
pub open spec fn is_valid_u32_text(t: Seq<char>) -> bool {
    let d = unsigned_body(t);
    d.len() > 0 && all_digits(d) && digits_val(d) <= u32::MAX
}

/// The value of a valid unsigned numeral.
pub open spec fn u32_text_val(t: Seq<char>) -> int {
    digits_val(unsigned_body(t))
}

/// `t` starts with an explicit sign character.
pub open spec fn has_sign(t: Seq<char>) -> bool {
    t.len() > 0 && (t[0] == '+' || t[0] == '-')
}

/// The digits of a signed numeral: a leading `+` or `-` is dropped.
pub open spec fn signed_body(t: Seq<char>) -> Seq<char> {
    if has_sign(t) {
        t.skip(1)
    } else {
        t
    }
}

/// `t` denotes a negative number.
pub open spec fn is_negative_text(t: Seq<char>) -> bool {
    t.len() > 0 && t[0] == '-'
}

/// The signed value `t` denotes.
pub open spec fn i32_text_val(t: Seq<char>) -> int {
    if is_negative_text(t) {
        -digits_val(signed_body(t))
    } else {
        digits_val(signed_body(t))
    }
}

/// `t` (already newline-trimmed) is a valid `i32` numeral.
pub open spec fn is_valid_i32_text(t: Seq<char>) -> bool {
    let d = signed_body(t);
    d.len() > 0 && all_digits(d) && i32::MIN <= i32_text_val(t) && i32_text_val(t) <= i32::MAX
}

/// What parsing raw content `raw` as `u32` must return: the numeral's value
/// when the trimmed text is valid, and otherwise a `ParseFailure` carrying
/// the raw text unchanged — never a default.
pub open spec fn u32_parse_matches(r: Result<u32, AttrError>, raw: Seq<char>) -> bool {
    let t = trim_newline(raw);
    if is_valid_u32_text(t) {
        match r {
            Ok(v) => v as int == u32_text_val(t),
            _ => false,
        }
    } else {
        match r {
            Err(AttrError::ParseFailure(text)) => text@ == raw,
            _ => false,
        }
    }
}

/// What parsing raw content `raw` as `i32` must return.
pub open spec fn i32_parse_matches(r: Result<i32, AttrError>, raw: Seq<char>) -> bool {
    let t = trim_newline(raw);
    if is_valid_i32_text(t) {
        match r {
            Ok(v) => v as int == i32_text_val(t),
            _ => false,
        }
    } else {
        match r {
            Err(AttrError::ParseFailure(text)) => text@ == raw,
            _ => false,
        }
    }
}

/// The attribute path for one field of one chip: `<directory>/<field>`.
pub open spec fn attr_path(dir: Seq<char>, field: Seq<char>) -> Seq<char> {
    dir + "/"@ + field
}

/// The attribute directory of one gauge instance: the chip's own directory
/// name, placed under the injected root when one was given.
pub open spec fn base_dir(root: Seq<char>, dir: Seq<char>) -> Seq<char> {
    if root.len() == 0 {
        dir
    } else {
        root + "/"@ + dir
    }
}

/// What reading a `u32` attribute must return for a given file outcome:
/// `content` is `None` when the file could not be read (then the error
/// carries the attempted path), and `Some` of the raw text otherwise (then
/// the result is the parse of that text).
pub open spec fn u32_read_matches(
    r: Result<u32, AttrError>,
    content: Option<Seq<char>>,
    path: Seq<char>,
) -> bool {
    match content {
        Option::None => match r {
            Err(AttrError::ReadFailure(p)) => p@ == path,
            _ => false,
        },
        Option::Some(text) => u32_parse_matches(r, text),
    }
}

/// What reading an `i32` attribute must return for a given file outcome.
pub open spec fn i32_read_matches(
    r: Result<i32, AttrError>,
    content: Option<Seq<char>>,
    path: Seq<char>,
) -> bool {
    match content {
        Option::None => match r {
            Err(AttrError::ReadFailure(p)) => p@ == path,
            _ => false,
        },
        Option::Some(text) => i32_parse_matches(r, text),
    }
}

/// Two `u32` readings agree: the same success value, or the same error kind
/// carrying the same diagnostic text.
pub open spec fn same_u32_outcome(r1: Result<u32, AttrError>, r2: Result<u32, AttrError>) -> bool {
    match (r1, r2) {
        (Ok(v1), Ok(v2)) => v1 == v2,
        (Err(AttrError::ReadFailure(p1)), Err(AttrError::ReadFailure(p2))) => p1@ == p2@,
        (Err(AttrError::ParseFailure(t1)), Err(AttrError::ParseFailure(t2))) => t1@ == t2@,
        _ => false,
    }
}

/// Two `i32` readings agree.
pub open spec fn same_i32_outcome(r1: Result<i32, AttrError>, r2: Result<i32, AttrError>) -> bool {
    match (r1, r2) {
        (Ok(v1), Ok(v2)) => v1 == v2,
        (Err(AttrError::ReadFailure(p1)), Err(AttrError::ReadFailure(p2))) => p1@ == p2@,
        (Err(AttrError::ParseFailure(t1)), Err(AttrError::ParseFailure(t2))) => t1@ == t2@,
        _ => false,
    }
}

/// Law: a `u32` read is a pure function of the file outcome.  Two reads of
/// the same path that saw the same content yield the identical value or the
/// identical error — nothing is cached and nothing drifts, so reading an
/// unchanged backing file twice gives the same reading both times.
pub proof fn lemma_u32_read_deterministic(
    r1: Result<u32, AttrError>,
    r2: Result<u32, AttrError>,
    content: Option<Seq<char>>,
    path: Seq<char>,
)
    requires
        u32_read_matches(r1, content, path),
        u32_read_matches(r2, content, path),
    ensures
        same_u32_outcome(r1, r2),
{
}

/// Law: an `i32` read is a pure function of the file outcome, as
/// `lemma_u32_read_deterministic` states for unsigned reads.
pub proof fn lemma_i32_read_deterministic(
    r1: Result<i32, AttrError>,
    r2: Result<i32, AttrError>,
    content: Option<Seq<char>>,
    path: Seq<char>,
)
    requires
        i32_read_matches(r1, content, path),
        i32_read_matches(r2, content, path),
    ensures
        same_i32_outcome(r1, r2),
{
}

/// Law: a `u32` read's errors tell the truth.  A `ReadFailure` arises only
/// when the file could not be read and carries exactly the attempted path;
/// a `ParseFailure` carries exactly the file's raw text, which is not a
/// valid unsigned numeral; and a success value is exactly the numeral the
/// file held — never a default.
pub proof fn lemma_u32_error_taxonomy(
    r: Result<u32, AttrError>,
    content: Option<Seq<char>>,
    path: Seq<char>,
)
    requires
        u32_read_matches(r, content, path),
    ensures
        r matches Err(AttrError::ReadFailure(p)) ==> content is None && p@ == path,
        r matches Err(AttrError::ParseFailure(text)) ==> content matches Some(c) && text@ == c
            && !is_valid_u32_text(trim_newline(c)),
        r matches Ok(v) ==> content matches Some(c) && is_valid_u32_text(trim_newline(c))
            && v as int == u32_text_val(trim_newline(c)),
{
}

/// Law: an `i32` read's errors tell the truth, as `lemma_u32_error_taxonomy`
/// states for unsigned reads.  In particular the sign of a success value is
/// the sign the file's text denotes.
pub proof fn lemma_i32_error_taxonomy(
    r: Result<i32, AttrError>,
    content: Option<Seq<char>>,
    path: Seq<char>,
)
    requires
        i32_read_matches(r, content, path),
    ensures
        r matches Err(AttrError::ReadFailure(p)) ==> content is None && p@ == path,
        r matches Err(AttrError::ParseFailure(text)) ==> content matches Some(c) && text@ == c
            && !is_valid_i32_text(trim_newline(c)),
        r matches Ok(v) ==> content matches Some(c) && is_valid_i32_text(trim_newline(c))
            && v as int == i32_text_val(trim_newline(c)),
{
}

/// A digit string's value is never negative.
pub proof fn lemma_digits_val_nonneg(s: Seq<char>)
    requires
        all_digits(s),
    ensures
        digits_val(s) >= 0,
    decreases s.len(),
{
    if s.len() > 0 {
        assert forall|i: int| 0 <= i < s.drop_last().len() implies is_digit_char(
            #[trigger] s.drop_last()[i],
        ) by {
            assert(s.drop_last()[i] == s[i]);
        }
        lemma_digits_val_nonneg(s.drop_last());
    }
}

/// Appending digits never decreases a numeral's value: the whole string's
/// value is at least any prefix's value.
pub proof fn lemma_digits_val_prefix(s: Seq<char>, i: int)
    requires
        0 <= i <= s.len(),
        all_digits(s),
    ensures
        digits_val(s.take(i)) <= digits_val(s),
    decreases s.len() - i,
{
    if i == s.len() {
        assert(s.take(i) =~= s);
    } else {
        assert forall|j: int| 0 <= j < s.take(i).len() implies is_digit_char(
            #[trigger] s.take(i)[j],
        ) by {
            assert(s.take(i)[j] == s[j]);
        }
        lemma_digits_val_nonneg(s.take(i));
        assert(s.take(i + 1).drop_last() =~= s.take(i));
        assert(s.take(i + 1).last() == s[i]);
        assert(digits_val(s.take(i + 1)) == digits_val(s.take(i)) * 10 + digit_val(s[i]));
        lemma_digits_val_prefix(s, i + 1);
    }
}

/// Parse attribute text as an unsigned 32-bit integer: strip one trailing
/// newline, accept an optional leading `+`, then decimal digits.
pub fn parse_u32_text(s: &str) -> (r: Result<u32, AttrError>)
    ensures
        u32_parse_matches(r, s@),
{
    let n: usize = s.unicode_len();
    let end: usize = if n > 0 && s.get_char(n - 1) == '\n' {
        n - 1
    } else {
        n
    };
    let ghost t = trim_newline(s@);
    proof {
        assert(t =~= s@.take(end as int));
    }
    let start: usize = if end > 0 && s.get_char(0) == '+' {
        1
    } else {
        0
    };
    let ghost d = unsigned_body(t);
    proof {
        assert(d =~= s@.subrange(start as int, end as int));
    }
    if start >= end {
        proof {
            assert(d.len() == 0);
        }
        return Err(AttrError::ParseFailure(s.to_owned()));
    }
    let mut acc: u64 = 0;
    let mut i: usize = start;
    while i < end
        invariant
            start <= i <= end,
            end <= s@.len(),
            start < end,
            d =~= s@.subrange(start as int, end as int),
            t =~= s@.take(end as int),
            t == trim_newline(s@),
            d == unsigned_body(t),
            forall|j: int| start <= j < i ==> is_digit_char(#[trigger] s@[j]),
            acc as int == digits_val(s@.subrange(start as int, i as int)),
            acc <= u32::MAX,
        decreases end - i,
    {
        let c = s.get_char(i);
        let cv: u32 = c as u32;
        if cv < 48 || cv > 57 {
            proof {
                assert(d[i - start] == s@[i as int]);
                assert(!is_digit_char(d[i - start]));
            }
            return Err(AttrError::ParseFailure(s.to_owned()));
        }
        let dv: u64 = (cv - 48) as u64;
        let next: u64 = acc * 10 + dv;
        proof {
            assert(s@.subrange(start as int, i + 1).drop_last() =~= s@.subrange(
                start as int,
                i as int,
            ));
            assert(s@.subrange(start as int, i + 1).last() == s@[i as int]);
        }
        if next > 0xFFFF_FFFF {
            proof {
                if all_digits(d) {
                    assert(d.take(i + 1 - start) =~= s@.subrange(start as int, i + 1));
                    lemma_digits_val_prefix(d, i + 1 - start);
                }
            }
            return Err(AttrError::ParseFailure(s.to_owned()));
        }
        acc = next;
        i = i + 1;
    }
    proof {
        assert(d =~= s@.subrange(start as int, end as int));
        assert forall|j: int| 0 <= j < d.len() implies is_digit_char(#[trigger] d[j]) by {
            assert(d[j] == s@[start + j]);
        }
        assert(is_valid_u32_text(t));
    }
    Ok(acc as u32)
}

/// Parse attribute text as a signed 32-bit integer: strip one trailing
/// newline, accept an optional leading `+` or `-`, then decimal digits.
/// The sign is preserved — negative current means discharge.
pub fn parse_i32_text(s: &str) -> (r: Result<i32, AttrError>)
    ensures
        i32_parse_matches(r, s@),
{
    let n: usize = s.unicode_len();
    let end: usize = if n > 0 && s.get_char(n - 1) == '\n' {
        n - 1
    } else {
        n
    };
    let ghost t = trim_newline(s@);
    proof {
        assert(t =~= s@.take(end as int));
    }
    let mut neg: bool = false;
    let mut start: usize = 0;
    if end > 0 {
        let first = s.get_char(0);
        if first == '-' {
            neg = true;
            start = 1;
        } else if first == '+' {
            start = 1;
        }
    }
    let ghost d = signed_body(t);
    proof {
        assert(d =~= s@.subrange(start as int, end as int));
        assert(neg == is_negative_text(t));
    }
    if start >= end {
        proof {
            assert(d.len() == 0);
        }
        return Err(AttrError::ParseFailure(s.to_owned()));
    }
    // The magnitude bound: 2^31 for a negative numeral, 2^31 - 1 otherwise.
    let bound: u64 = if neg {
        0x8000_0000
    } else {
        0x7FFF_FFFF
    };
    let mut acc: u64 = 0;
    let mut i: usize = start;
    while i < end
        invariant
            start <= i <= end,
            end <= s@.len(),
            start < end,
            d =~= s@.subrange(start as int, end as int),
            t =~= s@.take(end as int),
            t == trim_newline(s@),
            d == signed_body(t),
            neg == is_negative_text(t),
            bound == if neg { 0x8000_0000u64 } else { 0x7FFF_FFFFu64 },
            forall|j: int| start <= j < i ==> is_digit_char(#[trigger] s@[j]),
            acc as int == digits_val(s@.subrange(start as int, i as int)),
            acc <= bound,
        decreases end - i,
    {
        let c = s.get_char(i);
        let cv: u32 = c as u32;
        if cv < 48 || cv > 57 {
            proof {
                assert(d[i - start] == s@[i as int]);
                assert(!is_digit_char(d[i - start]));
            }
            return Err(AttrError::ParseFailure(s.to_owned()));
        }
        let dv: u64 = (cv - 48) as u64;
        let next: u64 = acc * 10 + dv;
        proof {
            assert(s@.subrange(start as int, i + 1).drop_last() =~= s@.subrange(
                start as int,
                i as int,
            ));
            assert(s@.subrange(start as int, i + 1).last() == s@[i as int]);
        }
        if next > bound {
            proof {
                if all_digits(d) {
                    assert(d.take(i + 1 - start) =~= s@.subrange(start as int, i + 1));
                    lemma_digits_val_prefix(d, i + 1 - start);
                }
            }
            return Err(AttrError::ParseFailure(s.to_owned()));
        }
        acc = next;
        i = i + 1;
    }
    proof {
        assert(d =~= s@.subrange(start as int, end as int));
        assert forall|j: int| 0 <= j < d.len() implies is_digit_char(#[trigger] d[j]) by {
            assert(d[j] == s@[start + j]);
        }
        assert(is_valid_i32_text(t));
    }
    if neg {
        if acc == 0x8000_0000 {
            Ok(i32::MIN)
        } else {
            Ok(-(acc as i32))
        }
    } else {
        Ok(acc as i32)
    }
}

/// Join a chip's attribute directory and a field name into one path.
pub fn join_path(dir: &str, field: &str) -> (r: String)
    ensures
        r@ == attr_path(dir@, field@),
{
    let mut p = String::from_str(dir);
    p.append("/");
    p.append(field);
    p
}

/// Join an optional root directory and a chip's attribute directory.
pub fn join_base_dir(root: &str, dir: &str) -> (r: String)
    ensures
        r@ == base_dir(root@, dir@),
{
    if root.is_empty() {
        String::from_str(dir)
    } else {
        join_path(root, dir)
    }
}

/// Relies on `fs_err::read_to_string`: returns the file's entire content as
/// text, or fails when the file is missing, unreadable, or not valid UTF-8.
/// The result depends on what is on disk, so nothing is promised of it.
#[verifier::external_body]
fn read_attr_text(path: &str) -> (r: Option<String>)
{
    match fs_err::read_to_string(path) {
        Ok(s) => Some(s),
        Err(_) => None,
    }
}

/// Read the attribute file at `path` and parse it as `u32`.  Whatever the
/// file read returned, the result is fully determined by it: some file
/// outcome explains the result, and a `ReadFailure` names exactly the
/// attempted path.
pub fn read_u32_property(path: &str) -> (r: Result<u32, AttrError>)
    ensures
        exists|content: Option<Seq<char>>| u32_read_matches(r, content, path@),
{
    match read_attr_text(path) {
        Some(text) => {
            let r = parse_u32_text(text.as_str());
            proof {
                assert(u32_read_matches(r, Option::Some(text@), path@));
            }
            r
        },
        None => {
            let r = Err(AttrError::ReadFailure(path.to_owned()));
            proof {
                assert(u32_read_matches(r, Option::None, path@));
            }
            r
        },
    }
}

/// Read the attribute file at `path` and parse it as `i32`.
pub fn read_i32_property(path: &str) -> (r: Result<i32, AttrError>)
    ensures
        exists|content: Option<Seq<char>>| i32_read_matches(r, content, path@),
{
    match read_attr_text(path) {
        Some(text) => {
            let r = parse_i32_text(text.as_str());
            proof {
                assert(i32_read_matches(r, Option::Some(text@), path@));
            }
            r
        },
        None => {
            let r = Err(AttrError::ReadFailure(path.to_owned()));
            proof {
                assert(i32_read_matches(r, Option::None, path@));
            }
            r
        },
    }
}

} // verus!
