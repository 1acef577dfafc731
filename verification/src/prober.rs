//! Reading the block-device landscape: the parser for a partitions
//! listing, the records a device probe produces, and the assembly of the
//! LVM snapshot into plain records.
//!
//! The listing's text and the probe results arrive as data; what this
//! module verifies is everything that reads them.

use vstd::prelude::*;
use crate::lvm::{LvmLv, LvmPv};
use crate::lvmbus::{LvConn, PvConn, VgConn};
use crate::partitions::PartitionTable;

verus! {

/// Whitespace, as the kernel's tables use it.
pub open spec fn is_ws(c: char) -> bool {
    c == ' ' || c == '\t' || c == '\r'
}

/// How long the non-whitespace run at the head of `s` is.
pub open spec fn run_len(s: Seq<char>) -> int
    decreases s.len(),
{
    if s.len() == 0 || is_ws(s[0]) {
        0
    } else {
        1 + run_len(s.drop_first())
    }
}

/// How much whitespace sits at the head of `s`.
pub open spec fn ws_len(s: Seq<char>) -> int
    decreases s.len(),
{
    if s.len() == 0 || !is_ws(s[0]) {
        0
    } else {
        1 + ws_len(s.drop_first())
    }
}

/// The whitespace-separated fields of `s`, in order.
pub open spec fn spec_fields(s: Seq<char>) -> Seq<Seq<char>>
    decreases s.len(),
    via spec_fields_decreases
{
    if s.len() == 0 {
        Seq::empty()
    } else if is_ws(s[0]) {
        spec_fields(s.drop_first())
    } else {
        let r = run_len(s);
        seq![s.subrange(0, r)] + spec_fields(s.subrange(r, s.len() as int))
    }
}

#[via_fn]
proof fn spec_fields_decreases(s: Seq<char>) {
    lemma_run_len_bounds(s);
}

/// The head run is never longer than the text and never empty on a
/// non-whitespace head.
pub proof fn lemma_run_len_bounds(s: Seq<char>)
    ensures
        0 <= run_len(s) <= s.len(),
        s.len() > 0 && !is_ws(s[0]) ==> run_len(s) >= 1,
        0 <= ws_len(s) <= s.len(),
    decreases s.len(),
{
    if s.len() > 0 {
        lemma_run_len_bounds(s.drop_first());
    }
}

/// The value of a decimal digit, or nothing.
pub open spec fn digit_val(c: char) -> Option<int> {
    if '0' <= c && c <= '9' {
        Some(c as int - 48)
    } else {
        None
    }
}

/// The number a digit string names, or nothing when a character is no
/// digit or the string is empty.
pub open spec fn spec_parse_dec(s: Seq<char>) -> Option<int>
    decreases s.len(),
{
    if s.len() == 0 {
        None
    } else if s.len() == 1 {
        digit_val(s[0])
    } else {
        match (spec_parse_dec(s.drop_last()), digit_val(s.last())) {
            (Some(hi), Some(d)) => Some(hi * 10 + d),
            _ => None,
        }
    }
}

/// Parses `s` as a decimal number no larger than `max`.
pub fn parse_dec(s: &str, max: u64) -> (r: Option<u64>)
    ensures
        match r {
            Some(v) => spec_parse_dec(s@) == Some(v as int) && v <= max,
            None => spec_parse_dec(s@) is None || !(spec_parse_dec(s@)->Some_0 <= max),
        },
{
    let n = s.unicode_len();
    if n == 0 {
        return None;
    }
    let mut val: u64 = 0;
    let mut i: usize = 0;
    while i < n
        invariant
            n == s@.len(),
            n > 0,
            i <= n,
            val <= max,
            i > 0 ==> spec_parse_dec(s@.subrange(0, i as int)) == Some(val as int),
            i == 0 ==> val == 0,
        decreases n - i,
    {
        let c = s.get_char(i) as u32;
        if c < 48 || c > 57 {
            proof {
                lemma_parse_dec_bad(s@, i as int);
            }
            return None;
        }
        let d: u64 = (c - 48) as u64;
        proof {
            if i > 0 {
                lemma_parse_dec_grows(s@, i as int);
            }
            assert(s@.subrange(0, i as int + 1).drop_last() =~= s@.subrange(0, i as int));
            assert(s@.subrange(0, i as int + 1).last() == s@[i as int]);
            assert(s@.subrange(0, 1int) =~= seq![s@[0]]);
        }
        if d > max || val > (max - d) / 10 {
            proof {
                let here = spec_parse_dec(s@.subrange(0, i as int + 1))->Some_0;
                assert(here == val * 10 + d || (i == 0 && here == d));
                if d <= max {
                    vstd::arithmetic::div_mod::lemma_fundamental_div_mod(max as int - d, 10);
                    assert(val * 10 + d > max) by (nonlinear_arith)
                        requires
                            val > (max - d) / 10,
                            0 <= d <= 9,
                            max >= d,
                            max - d == (max - d) / 10 * 10 + ((max - d) % 10),
                            (max - d) % 10 < 10,
                    ;
                }
                assert(here > max);
                if spec_parse_dec(s@) is Some {
                    lemma_parse_dec_prefix(s@, i as int + 1);
                }
            }
            return None;
        }
        proof {
            vstd::arithmetic::div_mod::lemma_fundamental_div_mod(max as int - d, 10);
            assert(val * 10 + d <= max) by (nonlinear_arith)
                requires
                    val <= (max - d) / 10,
                    0 <= d <= 9,
                    max >= d,
                    max - d >= (max - d) / 10 * 10,
            ;
        }
        val = val * 10 + d;
        i = i + 1;
    }
    proof {
        assert(s@.subrange(0, n as int) =~= s@);
    }
    Some(val)
}

/// A digit string with a non-digit in it names nothing, wherever the
/// non-digit stands.
proof fn lemma_parse_dec_bad(s: Seq<char>, i: int)
    requires
        0 <= i < s.len(),
        digit_val(s[i]) is None,
    ensures
        spec_parse_dec(s) is None,
    decreases s.len(),
{
    if s.len() == 1 {
    } else if i == s.len() - 1 {
    } else {
        lemma_parse_dec_bad(s.drop_last(), i);
    }
}

/// A parsed string's value is no smaller than that of any of its
/// non-empty prefixes.
proof fn lemma_parse_dec_prefix(s: Seq<char>, i: int)
    requires
        0 < i <= s.len(),
        spec_parse_dec(s) is Some,
    ensures
        spec_parse_dec(s.subrange(0, i)) is Some,
        spec_parse_dec(s.subrange(0, i))->Some_0 <= spec_parse_dec(s)->Some_0,
    decreases s.len(),
{
    if i == s.len() {
        assert(s.subrange(0, i) =~= s);
    } else {
        assert(s.drop_last() =~= s.subrange(0, s.len() - 1));
        if s.len() == 1 {
        } else {
            lemma_parse_dec_prefix(s.subrange(0, s.len() - 1), i);
            assert(s.subrange(0, s.len() - 1).subrange(0, i) =~= s.subrange(0, i));
            let hi = spec_parse_dec(s.drop_last())->Some_0;
            let d = digit_val(s.last())->Some_0;
            assert(hi >= 0) by {
                lemma_parse_dec_nonneg(s.drop_last());
            }
            assert(hi <= hi * 10 + d) by (nonlinear_arith)
                requires
                    0 <= hi,
                    0 <= d,
            ;
        }
    }
}

/// A parsed value is never negative.
proof fn lemma_parse_dec_nonneg(s: Seq<char>)
    requires
        spec_parse_dec(s) is Some,
    ensures
        spec_parse_dec(s)->Some_0 >= 0,
    decreases s.len(),
{
    if s.len() > 1 {
        lemma_parse_dec_nonneg(s.drop_last());
        let hi = spec_parse_dec(s.drop_last())->Some_0;
        let d = digit_val(s.last())->Some_0;
        assert(hi * 10 + d >= 0) by (nonlinear_arith)
            requires
                0 <= hi,
                0 <= d,
        ;
    }
}

/// A longer digit string names a number at least as large.
proof fn lemma_parse_dec_grows(s: Seq<char>, i: int)
    requires
        0 < i < s.len(),
        spec_parse_dec(s.subrange(0, i)) is Some,
        digit_val(s[i]) is Some,
    ensures
        spec_parse_dec(s.subrange(0, i + 1)) == Some(
            spec_parse_dec(s.subrange(0, i))->Some_0 * 10 + digit_val(s[i])->Some_0,
        ),
{
    assert(s.subrange(0, i + 1).drop_last() =~= s.subrange(0, i));
    assert(s.subrange(0, i + 1).last() == s[i]);
}

/// One row of the partitions listing could not be read.
#[derive(Copy, Clone, Debug, Eq, Hash, PartialEq, Structural)]
pub enum EntryError {
    NanMajor,
    NanMinor,
    NanBlocks,
    NoMajor,
    NoMinor,
    NoBlocks,
    NoName,
}

/// One row of the partitions listing: device numbers, size in blocks,
/// and the kernel name.
#[derive(Debug)]
pub struct PartitionEntry {
    pub major: u16,
    pub minor: u16,
    pub blocks: u64,
    pub name: String,
}

/// Why a listing row does not parse, if it does not: a missing field or
/// one that does not read as the number it should be.
pub open spec fn spec_entry_err(line: Seq<char>) -> Option<EntryError> {
    let fs = spec_fields(line);
    if fs.len() < 1 {
        Some(EntryError::NoMajor)
    } else if !(spec_parse_dec(fs[0]) matches Some(v) && v <= u16::MAX) {
        Some(EntryError::NanMajor)
    } else if fs.len() < 2 {
        Some(EntryError::NoMinor)
    } else if !(spec_parse_dec(fs[1]) matches Some(v) && v <= u16::MAX) {
        Some(EntryError::NanMinor)
    } else if fs.len() < 3 {
        Some(EntryError::NoBlocks)
    } else if !(spec_parse_dec(fs[2]) matches Some(v) && v <= u64::MAX) {
        Some(EntryError::NanBlocks)
    } else if fs.len() < 4 {
        Some(EntryError::NoName)
    } else {
        None
    }
}

/// Whether the character at `j` is whitespace.
fn ws_at(s: &str, j: usize) -> (r: bool)
    requires
        j < s@.len(),
    ensures
        r == is_ws(s@[j as int]),
{
    let c = s.get_char(j);
    c == ' ' || c == '\t' || c == '\r'
}

/// Splits `s` into its whitespace-separated fields.
pub fn split_fields(s: &str) -> (r: Vec<String>)
    ensures
        r@.len() == spec_fields(s@).len(),
        forall|i: int| 0 <= i < r@.len() ==> (#[trigger] r@[i])@ == spec_fields(s@)[i],
{
    let n = s.unicode_len();
    let mut out: Vec<String> = Vec::new();
    let mut i: usize = 0;
    proof {
        assert(s@.subrange(0, n as int) =~= s@);
    }
    while i < n
        invariant
            n == s@.len(),
            i <= n,
            out@.map_values(|t: String| t@) + spec_fields(s@.subrange(i as int, n as int))
                == spec_fields(s@),
        decreases n - i,
    {
        let ghost rest = s@.subrange(i as int, n as int);
        let c = s.get_char(i);
        if c == ' ' || c == '\t' || c == '\r' {
            proof {
                assert(rest.drop_first() =~= s@.subrange(i as int + 1, n as int));
            }
            i = i + 1;
        } else {
            // The field runs to the next whitespace.
            let mut j: usize = i + 1;
            proof {
                lemma_run_len_suffix(s@, i as int, i as int + 1);
            }
            while j < n && !ws_at(s, j)
                invariant
                    n == s@.len(),
                    i < j <= n,
                    forall|k: int| i <= k < j ==> !is_ws(s@[k]),
                    run_len(s@.subrange(i as int, n as int)) >= j - i,
                decreases n - j,
            {
                proof {
                    lemma_run_len_suffix(s@, i as int, j as int + 1);
                }
                j = j + 1;
            }
            proof {
                assert(j == n || is_ws(s@[j as int]));
            }
            proof {
                lemma_run_len_exact(s@, i as int, j as int);
                lemma_run_len_bounds(rest);
            }
            let field = s.substring_char(i, j);
            let owned = String::from_str(field);
            out.push(owned);
            proof {
                let r = run_len(rest);
                assert(r == j - i);
                assert(rest.subrange(0, r) =~= s@.subrange(i as int, j as int));
                assert(rest.subrange(r, rest.len() as int) =~= s@.subrange(j as int, n as int));
                assert(out@.map_values(|t: String| t@) =~= out@.drop_last().map_values(
                    |t: String| t@,
                ).push(field@));
                assert(out@.map_values(|t: String| t@) + spec_fields(
                    s@.subrange(j as int, n as int),
                ) =~= spec_fields(s@));
            }
            i = j;
        }
    }
    proof {
        assert(s@.subrange(n as int, n as int) =~= Seq::<char>::empty());
        assert(out@.map_values(|t: String| t@) + spec_fields(Seq::<char>::empty())
            =~= out@.map_values(|t: String| t@));
        assert forall|k: int| 0 <= k < out@.len() implies (#[trigger] out@[k])@ == spec_fields(
            s@,
        )[k] by {
            assert(out@.map_values(|t: String| t@)[k] == out@[k]@);
        }
    }
    out
}

/// The head run of the suffix at `i` covers at least up to `j` when no
/// whitespace stands in between.
proof fn lemma_run_len_suffix(s: Seq<char>, i: int, j: int)
    requires
        0 <= i < j <= s.len(),
        forall|k: int| i <= k < j ==> !is_ws(s[k]),
    ensures
        run_len(s.subrange(i, s.len() as int)) >= j - i,
    decreases j - i,
{
    let rest = s.subrange(i, s.len() as int);
    assert(!is_ws(rest[0]));
    if j - i > 1 {
        lemma_run_len_suffix(s, i + 1, j);
        assert(rest.drop_first() =~= s.subrange(i + 1, s.len() as int));
    } else {
        lemma_run_len_bounds(rest.drop_first());
    }
}

/// The head run of the suffix at `i` stops exactly at `j`: nothing before
/// is whitespace, and `j` is the end of the text or whitespace itself.
proof fn lemma_run_len_exact(s: Seq<char>, i: int, j: int)
    requires
        0 <= i <= j <= s.len(),
        forall|k: int| i <= k < j ==> !is_ws(s[k]),
        j == s.len() || is_ws(s[j]),
    ensures
        run_len(s.subrange(i, s.len() as int)) == j - i,
    decreases j - i,
{
    let rest = s.subrange(i, s.len() as int);
    if i == j {
        if rest.len() > 0 {
            assert(is_ws(rest[0]));
        }
    } else {
        assert(!is_ws(rest[0]));
        lemma_run_len_exact(s, i + 1, j);
        assert(rest.drop_first() =~= s.subrange(i + 1, s.len() as int));
    }
}

/// How many characters the first line of `s` holds, its newline not
/// counted.
pub open spec fn line_len(s: Seq<char>) -> int
    decreases s.len(),
{
    if s.len() == 0 || s[0] == '\n' {
        0
    } else {
        1 + line_len(s.drop_first())
    }
}

/// The lines of `s`, split at each newline.
pub open spec fn spec_lines(s: Seq<char>) -> Seq<Seq<char>>
    decreases s.len(),
    via spec_lines_decreases
{
    if s.len() == 0 {
        Seq::empty()
    } else {
        let l = line_len(s);
        if l == s.len() {
            seq![s]
        } else {
            seq![s.subrange(0, l)] + spec_lines(s.subrange(l + 1, s.len() as int))
        }
    }
}

#[via_fn]
proof fn spec_lines_decreases(s: Seq<char>) {
    lemma_line_len_bounds(s);
}

/// The first line never outruns the text.
pub proof fn lemma_line_len_bounds(s: Seq<char>)
    ensures
        0 <= line_len(s) <= s.len(),
        line_len(s) < s.len() ==> s[line_len(s)] == '\n',
    decreases s.len(),
{
    if s.len() > 0 && s[0] != '\n' {
        lemma_line_len_bounds(s.drop_first());
    }
}

/// Whether the character at `j` is a newline.
fn nl_at(s: &str, j: usize) -> (r: bool)
    requires
        j < s@.len(),
    ensures
        r == (s@[j as int] == '\n'),
{
    s.get_char(j) == '\n'
}

/// The first line of the suffix at `i` covers at least up to `j` when no
/// newline stands in between.
proof fn lemma_line_len_suffix(s: Seq<char>, i: int, j: int)
    requires
        0 <= i <= j <= s.len(),
        forall|k: int| i <= k < j ==> s[k] != '\n',
    ensures
        line_len(s.subrange(i, s.len() as int)) >= j - i,
    decreases j - i,
{
    let rest = s.subrange(i, s.len() as int);
    if j - i > 0 {
        assert(rest[0] != '\n');
        lemma_line_len_suffix(s, i + 1, j);
        assert(rest.drop_first() =~= s.subrange(i + 1, s.len() as int));
    } else {
        lemma_line_len_bounds(rest);
    }
}

/// The first line of the suffix at `i` ends exactly at `j`.
proof fn lemma_line_len_exact(s: Seq<char>, i: int, j: int)
    requires
        0 <= i <= j <= s.len(),
        forall|k: int| i <= k < j ==> s[k] != '\n',
        j == s.len() || s[j] == '\n',
    ensures
        line_len(s.subrange(i, s.len() as int)) == j - i,
    decreases j - i,
{
    let rest = s.subrange(i, s.len() as int);
    if i == j {
    } else {
        assert(rest[0] != '\n');
        lemma_line_len_exact(s, i + 1, j);
        assert(rest.drop_first() =~= s.subrange(i + 1, s.len() as int));
    }
}

/// Splits `s` at newlines.
pub fn split_lines(s: &str) -> (r: Vec<String>)
    ensures
        r@.len() == spec_lines(s@).len(),
        forall|i: int| 0 <= i < r@.len() ==> (#[trigger] r@[i])@ == spec_lines(s@)[i],
{
    let n = s.unicode_len();
    let mut out: Vec<String> = Vec::new();
    let mut i: usize = 0;
    proof {
        assert(s@.subrange(0, n as int) =~= s@);
    }
    while i < n
        invariant
            n == s@.len(),
            i <= n,
            out@.map_values(|t: String| t@) + spec_lines(s@.subrange(i as int, n as int))
                == spec_lines(s@),
        decreases n - i,
    {
        let ghost rest = s@.subrange(i as int, n as int);
        let mut j: usize = i;
        while j < n && !nl_at(s, j)
            invariant
                n == s@.len(),
                i <= j <= n,
                forall|k: int| i <= k < j ==> s@[k] != '\n',
            decreases n - j,
        {
            j = j + 1;
        }
        proof {
            assert(j == n || s@[j as int] == '\n');
            lemma_line_len_exact(s@, i as int, j as int);
        }
        let line = s.substring_char(i, j);
        out.push(String::from_str(line));
        proof {
            let l = line_len(rest);
            assert(l == j - i);
            assert(rest.subrange(0, l) =~= s@.subrange(i as int, j as int));
            if j < n {
                assert(rest.subrange(l + 1, rest.len() as int) =~= s@.subrange(
                    j as int + 1,
                    n as int,
                ));
            } else {
                assert(rest =~= s@.subrange(i as int, j as int));
            }
            assert(out@.map_values(|t: String| t@) =~= out@.drop_last().map_values(
                |t: String| t@,
            ).push(line@));
            if j < n {
                assert(out@.map_values(|t: String| t@) + spec_lines(
                    s@.subrange(j as int + 1, n as int),
                ) =~= spec_lines(s@));
            } else {
                assert(out@.map_values(|t: String| t@) + spec_lines(
                    s@.subrange(n as int, n as int),
                ) =~= spec_lines(s@));
            }
        }
        if j < n {
            i = j + 1;
        } else {
            i = n;
        }
    }
    proof {
        assert(s@.subrange(n as int, n as int) =~= Seq::<char>::empty());
        assert(out@.map_values(|t: String| t@) + spec_lines(Seq::<char>::empty())
            =~= out@.map_values(|t: String| t@));
        assert forall|k: int| 0 <= k < out@.len() implies (#[trigger] out@[k])@ == spec_lines(
            s@,
        )[k] by {
            assert(out@.map_values(|t: String| t@)[k] == out@[k]@);
        }
    }
    out
}

impl PartitionEntry {
    /// Reads one listing row. The first four fields are the device's
    /// major and minor numbers, its size in blocks, and its name; a
    /// missing or malformed field is reported as such.
    pub fn try_from(input: &str) -> (r: Result<PartitionEntry, EntryError>)
        ensures
            match r {
                Ok(e) => {
                    let fs = spec_fields(input@);
                    &&& spec_entry_err(input@) is None
                    &&& fs.len() >= 4
                    &&& spec_parse_dec(fs[0]) == Some(e.major as int)
                    &&& spec_parse_dec(fs[1]) == Some(e.minor as int)
                    &&& spec_parse_dec(fs[2]) == Some(e.blocks as int)
                    &&& e.name@ == fs[3]
                },
                Err(err) => spec_entry_err(input@) == Some(err),
            },
    {
        let fields = split_fields(input);
        if fields.len() < 1 {
            return Err(EntryError::NoMajor);
        }
        let major = match parse_dec(fields[0].as_str(), 65535) {
            Some(v) => v as u16,
            None => {
                return Err(EntryError::NanMajor);
            },
        };
        if fields.len() < 2 {
            return Err(EntryError::NoMinor);
        }
        let minor = match parse_dec(fields[1].as_str(), 65535) {
            Some(v) => v as u16,
            None => {
                return Err(EntryError::NanMinor);
            },
        };
        if fields.len() < 3 {
            return Err(EntryError::NoBlocks);
        }
        let blocks = match parse_dec(fields[2].as_str(), 0xFFFF_FFFF_FFFF_FFFF) {
            Some(v) => v,
            None => {
                return Err(EntryError::NanBlocks);
            },
        };
        if fields.len() < 4 {
            return Err(EntryError::NoName);
        }
        let name = fields[3].clone();
        Ok(PartitionEntry { major, minor, blocks, name })
    }
}

/// The text of a partitions listing, ready to iterate: two header lines,
/// then one row per device.
pub struct PartitionsFile {
    pub text: String,
}

impl PartitionsFile {
    /// Wraps the text of a partitions listing.
    pub fn new(text: String) -> (r: PartitionsFile)
        ensures
            r.text == text,
    {
        PartitionsFile { text }
    }

    /// The listing's rows, the two header lines skipped.
    pub fn rows(&self) -> (r: Vec<String>)
        ensures
            ({
                let ls = spec_lines(self.text@);
                &&& r@.len() == if ls.len() >= 2 {
                    ls.len() - 2
                } else {
                    0int
                }
                &&& forall|i: int| 0 <= i < r@.len() ==> (#[trigger] r@[i])@ == ls[i + 2]
            }),
    {
        let all = split_lines(self.text.as_str());
        let mut out: Vec<String> = Vec::new();
        let n = all.len();
        let mut i: usize = 2;
        if n < 2 {
            return out;
        }
        while i < n
            invariant
                n == all@.len(),
                2 <= i <= n,
                out@.len() == i - 2,
                forall|j: int| 0 <= j < out@.len() ==> (#[trigger] out@[j]) == all@[j + 2],
                forall|j: int|
                    0 <= j < all@.len() ==> (#[trigger] all@[j])@ == spec_lines(self.text@)[j],
            decreases n - i,
        {
            out.push(all[i].clone());
            i = i + 1;
        }
        out
    }

    /// An iterator over the listing's parsed rows.
    pub fn entry_iter(&self) -> (r: EntryIter)
        ensures
            r.at == 0,
            ({
                let ls = spec_lines(self.text@);
                &&& r.rows@.len() == if ls.len() >= 2 {
                    ls.len() - 2
                } else {
                    0int
                }
                &&& forall|i: int| 0 <= i < r.rows@.len() ==> (#[trigger] r.rows@[i])@ == ls[i + 2]
            }),
    {
        EntryIter { rows: self.rows(), at: 0 }
    }
}

/// Walks the rows of a partitions listing, parsing one per step.
pub struct EntryIter {
    pub rows: Vec<String>,
    pub at: usize,
}

impl EntryIter {
    /// The next row, parsed; nothing when the rows are out.
    pub fn next(&mut self) -> (r: Option<Result<PartitionEntry, EntryError>>)
        ensures
            final(self).rows == old(self).rows,
            match r {
                Some(e) => {
                    &&& old(self).at < old(self).rows@.len()
                    &&& final(self).at == old(self).at + 1
                    &&& (e matches Err(err) ==> spec_entry_err(old(self).rows@[old(self).at as int]@)
                        == Some(err))
                    &&& (e matches Ok(entry) ==> spec_entry_err(
                        old(self).rows@[old(self).at as int]@,
                    ) is None && entry.name@ == spec_fields(
                        old(self).rows@[old(self).at as int]@,
                    )[3])
                },
                None => old(self).at >= old(self).rows@.len() && final(self).at == old(self).at,
            },
    {
        if self.at >= self.rows.len() {
            return None;
        }
        let parsed = PartitionEntry::try_from(self.rows[self.at].as_str());
        self.at = self.at + 1;
        Some(parsed)
    }
}

/// Walks the rows as devices: each parsed row with its device node path.
pub struct DeviceIter {
    pub inner: EntryIter,
}

impl DeviceIter {
    /// The next device row with its `/dev` path.
    pub fn next(&mut self) -> (r: Option<Result<(PartitionEntry, String), EntryError>>)
        ensures
            final(self).inner.rows == old(self).inner.rows,
            match r {
                Some(e) => {
                    &&& old(self).inner.at < old(self).inner.rows@.len()
                    &&& final(self).inner.at == old(self).inner.at + 1
                    &&& (e matches Err(err) ==> spec_entry_err(
                        old(self).inner.rows@[old(self).inner.at as int]@,
                    ) == Some(err))
                    &&& (e matches Ok((entry, path)) ==> spec_entry_err(
                        old(self).inner.rows@[old(self).inner.at as int]@,
                    ) is None && entry.name@ == spec_fields(
                        old(self).inner.rows@[old(self).inner.at as int]@,
                    )[3] && path@ == "/dev/"@ + entry.name@)
                },
                None => old(self).inner.at >= old(self).inner.rows@.len()
                    && final(self).inner.at == old(self).inner.at,
            },
    {
        match self.inner.next() {
            Some(Ok(entry)) => {
                let path = String::from_str("/dev/").concat(entry.name.as_str());
                Some(Ok((entry, path)))
            },
            Some(Err(e)) => Some(Err(e)),
            None => None,
        }
    }
}

/// What probing the block layer can report.
#[derive(Debug)]
pub enum DiskProberError {
    Io,
    Utf8Device,
    BlkId,
    Entry(EntryError),
    GetPartition(u32),
    LoopWithoutBackingFile,
    MapWithoutName,
    PartitionNo,
    PartitionNew,
    PartitionProbe,
    Probe,
    Sectors,
    Size,
    Topology,
}

/// What probing whole block devices can report.
#[derive(Debug)]
pub enum BlockProbeError {
    Io,
    Utf8Device,
    BlkId,
    Entry(EntryError),
    GetPartition(u32),
    LoopWithoutBackingFile,
    MapWithoutName,
    PartitionNo,
    PartitionNew,
    PartitionProbe,
    Probe,
    Sectors,
    Size,
    Topology,
    UnknownTable(String),
}

/// A prober over a partitions listing.
pub struct Prober {
    pub file: PartitionsFile,
}

impl Prober {
    /// Wraps a listing for probing.
    pub fn new(file: PartitionsFile) -> (r: Prober)
        ensures
            r.file == file,
    {
        Prober { file }
    }
}

/// Walks a prober's devices.
pub struct ProberIter {
    pub inner: DeviceIter,
}

/// A prober over whole block devices of a partitions listing.
pub struct BlockProber {
    pub file: PartitionsFile,
}

impl BlockProber {
    /// Wraps a listing for probing.
    pub fn new(file: PartitionsFile) -> (r: BlockProber)
        ensures
            r.file == file,
    {
        BlockProber { file }
    }
}

/// Walks a block prober's devices.
pub struct BlockProberIter {
    pub inner: DeviceIter,
}

/// How a probed whole device is classified.
#[derive(Debug)]
pub enum DeviceVariant {
    /// A loopback, with its backing file path.
    Loopback(String),
    /// A device-map target, with its map name.
    DevMap(String),
    /// A physical disk, with its table kind if one was recognized.
    Physical(Option<PartitionTable>),
}

/// Everything a probe reports of one partition.
pub struct ProbePartInfo {
    pub device: String,
    pub no: u32,
    pub offset: u64,
    pub partlabel: Option<String>,
    pub partuuid: Option<String>,
    pub path: String,
    pub sectors: u64,
    pub fstype: Option<String>,
    pub uuid: Option<String>,
}

/// Everything a probe reports of one whole device.
pub struct ProbeInfo {
    pub alignment: u64,
    pub device: String,
    pub devno_major: u16,
    pub devno_minor: u16,
    pub logical_sector_size: u64,
    pub partitions: Vec<ProbePartInfo>,
    pub path: String,
    pub physical_sector_size: u64,
    pub sectors: u64,
    pub size: u64,
    pub fstype: Option<String>,
    pub uuid: Option<String>,
    pub variant: DeviceVariant,
}

/// The kernel name a partition of `parent` takes: the parent's name, a
/// `p` when that name ends in a digit, then the partition number.
pub fn partition_device_name(parent: &str, no: u64) -> (r: String)
    ensures
        ({
            let n = parent@.len();
            let nvme = n > 0 && '0' <= parent@[n - 1] && parent@[n - 1] <= '9';
            r@ == if nvme {
                parent@ + seq!['p'] + crate::common::spec_u64_chars(no as int)
            } else {
                parent@ + crate::common::spec_u64_chars(no as int)
            }
        }),
{
    let n = parent.unicode_len();
    let digits = crate::common::u64_to_string(no);
    let nvme = if n > 0 {
        let c = parent.get_char(n - 1);
        '0' <= c && c <= '9'
    } else {
        false
    };
    if nvme {
        let r = String::from_str(parent).concat("p").concat(digits.as_str());
        proof {
            reveal_strlit("p");
            assert(r@ =~= parent@ + seq!['p'] + crate::common::spec_u64_chars(no as int));
        }
        r
    } else {
        let r = String::from_str(parent).concat(digits.as_str());
        r
    }
}

/// Whether a physical volume's snapshot node answered every property the
/// prober reads: its name, its UUID and its size.
pub open spec fn pv_node_complete(n: crate::lvmbus::PvNode) -> bool {
    &&& n.name is Some
    &&& n.uuid is Some
    &&& n.size_bytes is Some
}

/// Whether a volume group's snapshot node answered every scalar the
/// prober reads: its name and its extent size, count and free count.
pub open spec fn vg_node_complete(n: crate::lvmbus::VgNode) -> bool {
    &&& n.name is Some
    &&& n.extent_size_bytes is Some
    &&& n.extent_count is Some
    &&& n.extent_free_count is Some
}

/// Whether a resolved member record comes from a physical volume node of
/// the snapshot, field for field.
pub open spec fn pv_resolved(conn: PvConn, e: (u32, LvmPv)) -> bool {
    exists|m: int|
        0 <= m < conn.nodes@.len() && {
            let node = #[trigger] conn.nodes@[m];
            &&& node.node == e.0
            &&& node.name == Some(e.1.path)
            &&& node.uuid == Some(e.1.uuid)
            &&& node.size_bytes == Some(e.1.size_bytes)
        }
}

/// Whether a resolved member record comes from a logical volume node of
/// the snapshot, field for field.
pub open spec fn lv_resolved(conn: LvConn, l: LvmLv) -> bool {
    exists|m: int|
        0 <= m < conn.nodes@.len() && {
            let node = #[trigger] conn.nodes@[m];
            &&& node.name == Some(l.name)
            &&& node.uuid == Some(l.uuid)
            &&& node.path == Some(l.path)
        }
}

/// One volume group as the LVM bus reports it, its members resolved.
pub struct VgInfo {
    pub name: String,
    pub extent_size: u64,
    pub extents: u64,
    pub extents_free: u64,
    pub pvs: Vec<(u32, LvmPv)>,
    pub lvs: Vec<LvmLv>,
}

/// The LVM bus could not answer.
#[derive(Debug, PartialEq, Eq, Clone)]
pub struct LvmProbeError {
    pub cause: crate::lvmbus::Error,
}

/// The node number an object path carries after its final slash, if any.
pub open spec fn spec_node_id(path: Seq<char>) -> Option<int> {
    if exists|i: int| 0 <= i < path.len() && path[i] == '/' {
        let cut = (choose|i: int|
            0 <= i < path.len() && path[i] == '/' && forall|j: int|
                i < j < path.len() ==> path[j] != '/') + 1;
        spec_parse_dec(path.subrange(cut, path.len() as int))
    } else {
        None
    }
}

/// Reads the node number off an object path.
pub fn parse_node_id(path: &str) -> (r: Option<u32>)
    ensures
        r matches Some(v) ==> spec_node_id(path@) == Some(v as int),
        r is None ==> spec_node_id(path@) is None || !(spec_node_id(path@)->Some_0
            <= u32::MAX as int),
{
    let n = path.unicode_len();
    let mut cut: usize = 0;
    let mut found = false;
    let mut i: usize = 0;
    while i < n
        invariant
            n == path@.len(),
            i <= n,
            found ==> cut < i && path@[cut as int] == '/' && (forall|j: int|
                cut < j < i ==> path@[j] != '/'),
            !found ==> forall|j: int| 0 <= j < i ==> path@[j] != '/',
        decreases n - i,
    {
        if path.get_char(i) == '/' {
            cut = i;
            found = true;
        }
        i = i + 1;
    }
    if !found {
        return None;
    }
    let tail = path.substring_char(cut + 1, n);
    match parse_dec(tail, 0xFFFF_FFFF) {
        Some(v) => {
            proof {
                let w = choose|w: int|
                    0 <= w < path@.len() && path@[w] == '/' && forall|j: int|
                        w < j < path@.len() ==> path@[j] != '/';
                assert(w == cut as int) by {
                    if w < cut {
                        assert(path@[cut as int] == '/');
                    }
                    if w > cut {
                        assert(path@[w] != '/');
                    }
                }
                assert(tail@ =~= path@.subrange(cut as int + 1, n as int));
            }
            Some(v as u32)
        },
        None => None,
    }
}

/// The LVM bus, read as a snapshot: volume groups with their members.
pub struct LvmProber {
    pub volume_groups: VgConn,
    pub physical_volumes: PvConn,
    pub logical_volumes: LvConn,
}

impl LvmProber {
    /// Wraps a snapshot of the bus.
    pub fn new(volume_groups: VgConn, physical_volumes: PvConn, logical_volumes: LvConn) -> (r:
        LvmProber)
        ensures
            r.volume_groups == volume_groups,
            r.physical_volumes == physical_volumes,
            r.logical_volumes == logical_volumes,
    {
        LvmProber { volume_groups, physical_volumes, logical_volumes }
    }

    /// Every physical volume of the snapshot, as a plain record; a
    /// property the bus did not answer stops the walk with its error.
    pub fn iter_pvs(&self) -> (r: Result<Vec<(u32, LvmPv)>, LvmProbeError>)
        ensures
            r is Ok <==> (forall|i: int|
                0 <= i < self.physical_volumes.nodes@.len() ==> pv_node_complete(
                    #[trigger] self.physical_volumes.nodes@[i],
                )),
            r matches Ok(pvs) ==> {
                &&& pvs@.len() == self.physical_volumes.nodes@.len()
                &&& forall|i: int|
                    0 <= i < pvs@.len() ==> {
                        let node = self.physical_volumes.nodes@[i];
                        &&& (#[trigger] pvs@[i]).0 == node.node
                        &&& node.name == Some(pvs@[i].1.path)
                        &&& node.uuid == Some(pvs@[i].1.uuid)
                        &&& node.size_bytes == Some(pvs@[i].1.size_bytes)
                    }
            },
    {
        let mut out: Vec<(u32, LvmPv)> = Vec::new();
        let n = self.physical_volumes.len();
        let mut i: usize = 0;
        while i < n
            invariant
                n == self.physical_volumes.nodes@.len(),
                i <= n,
                out@.len() == i,
                forall|j: int|
                    0 <= j < i ==> {
                        let node = self.physical_volumes.nodes@[j];
                        &&& (#[trigger] out@[j]).0 == node.node
                        &&& node.name == Some(out@[j].1.path)
                        &&& node.uuid == Some(out@[j].1.uuid)
                        &&& node.size_bytes == Some(out@[j].1.size_bytes)
                    },
            decreases n - i,
        {
            let pv = self.physical_volumes.connect(i);
            let path = match pv.name() {
                Ok(p) => p,
                Err(e) => {
                    proof {
                        assert(!pv_node_complete(self.physical_volumes.nodes@[i as int]));
                    }
                    return Err(LvmProbeError { cause: e });
                },
            };
            let uuid = match pv.uuid() {
                Ok(u) => u,
                Err(e) => {
                    proof {
                        assert(!pv_node_complete(self.physical_volumes.nodes@[i as int]));
                    }
                    return Err(LvmProbeError { cause: e });
                },
            };
            let size_bytes = match pv.size_bytes() {
                Ok(v) => v,
                Err(e) => {
                    proof {
                        assert(!pv_node_complete(self.physical_volumes.nodes@[i as int]));
                    }
                    return Err(LvmProbeError { cause: e });
                },
            };
            let node = pv.node.node;
            out.push((node, LvmPv { path, uuid, size_bytes }));
            i = i + 1;
        }
        proof {
            assert forall|i2: int|
                0 <= i2 < self.physical_volumes.nodes@.len() implies pv_node_complete(
                #[trigger] self.physical_volumes.nodes@[i2],
            ) by {
                assert(self.physical_volumes.nodes@[i2].name == Some(out@[i2].1.path));
            }
        }
        Ok(out)
    }

    /// Every volume group of the snapshot, its scalar properties read and
    /// its member volumes resolved through their object paths.
    pub fn iter_vgs(&self) -> (r: Result<Vec<VgInfo>, LvmProbeError>)
        ensures
            r is Ok <==> (forall|i: int|
                0 <= i < self.volume_groups.nodes@.len() ==> vg_node_complete(
                    #[trigger] self.volume_groups.nodes@[i],
                )),
            r matches Ok(infos) ==> {
                &&& infos@.len() == self.volume_groups.nodes@.len()
                &&& forall|i: int|
                    0 <= i < infos@.len() ==> {
                        let node = self.volume_groups.nodes@[i];
                        &&& node.name == Some((#[trigger] infos@[i]).name)
                        &&& node.extent_size_bytes == Some(infos@[i].extent_size)
                        &&& node.extent_count == Some(infos@[i].extents)
                        &&& node.extent_free_count == Some(infos@[i].extents_free)
                    }
                &&& forall|i: int, k: int|
                    0 <= i < infos@.len() && 0 <= k < (#[trigger] infos@[i]).pvs@.len()
                        ==> pv_resolved(self.physical_volumes, #[trigger] infos@[i].pvs@[k])
                &&& forall|i: int, k: int|
                    0 <= i < infos@.len() && 0 <= k < (#[trigger] infos@[i]).lvs@.len()
                        ==> lv_resolved(self.logical_volumes, #[trigger] infos@[i].lvs@[k])
            },
    {
        let mut out: Vec<VgInfo> = Vec::new();
        let n = self.volume_groups.len();
        let mut i: usize = 0;
        while i < n
            invariant
                n == self.volume_groups.nodes@.len(),
                i <= n,
                out@.len() == i,
                forall|j: int|
                    0 <= j < i ==> {
                        let node = self.volume_groups.nodes@[j];
                        &&& node.name == Some((#[trigger] out@[j]).name)
                        &&& node.extent_size_bytes == Some(out@[j].extent_size)
                        &&& node.extent_count == Some(out@[j].extents)
                        &&& node.extent_free_count == Some(out@[j].extents_free)
                    },
                forall|j: int, k: int|
                    0 <= j < i && 0 <= k < (#[trigger] out@[j]).pvs@.len() ==> pv_resolved(
                        self.physical_volumes,
                        #[trigger] out@[j].pvs@[k],
                    ),
                forall|j: int, k: int|
                    0 <= j < i && 0 <= k < (#[trigger] out@[j]).lvs@.len() ==> lv_resolved(
                        self.logical_volumes,
                        #[trigger] out@[j].lvs@[k],
                    ),
            decreases n - i,
        {
            let vg = self.volume_groups.connect(i);
            let name = match vg.name() {
                Ok(p) => p,
                Err(e) => {
                    proof {
                        assert(!vg_node_complete(self.volume_groups.nodes@[i as int]));
                    }
                    return Err(LvmProbeError { cause: e });
                },
            };
            let extent_size = match vg.extent_size_bytes() {
                Ok(v) => v,
                Err(e) => {
                    proof {
                        assert(!vg_node_complete(self.volume_groups.nodes@[i as int]));
                    }
                    return Err(LvmProbeError { cause: e });
                },
            };
            let extents = match vg.extent_count() {
                Ok(v) => v,
                Err(e) => {
                    proof {
                        assert(!vg_node_complete(self.volume_groups.nodes@[i as int]));
                    }
                    return Err(LvmProbeError { cause: e });
                },
            };
            let extents_free = match vg.extent_free_count() {
                Ok(v) => v,
                Err(e) => {
                    proof {
                        assert(!vg_node_complete(self.volume_groups.nodes@[i as int]));
                    }
                    return Err(LvmProbeError { cause: e });
                },
            };

            // Resolve the group's members through their object paths.
            let pv_paths = vg.pvs();
            let mut pvs: Vec<(u32, LvmPv)> = Vec::new();
            let pn = pv_paths.len();
            let mut j: usize = 0;
            while j < pn
                invariant
                    pn == pv_paths@.len(),
                    j <= pn,
                    forall|k: int|
                        0 <= k < pvs@.len() ==> pv_resolved(
                            self.physical_volumes,
                            #[trigger] pvs@[k],
                        ),
                decreases pn - j,
            {
                let ghost pb = pvs@;
                if let Some(id) = parse_node_id(pv_paths[j].as_str()) {
                    if let Some(node) = find_pv(&self.physical_volumes, id) {
                        let ghost gnode = node;
                        let pvp = crate::lvmbus::PvPath { node };
                        if let (Ok(path), Ok(uuid), Ok(size_bytes)) = (
                            pvp.name(),
                            pvp.uuid(),
                            pvp.size_bytes(),
                        ) {
                            pvs.push((pvp.node.node, LvmPv { path, uuid, size_bytes }));
                            proof {
                                assert forall|k: int|
                                    0 <= k < pvs@.len() implies pv_resolved(
                                    self.physical_volumes,
                                    #[trigger] pvs@[k],
                                ) by {
                                    if k < pvs@.len() - 1 {
                                        assert(pvs@[k] == pb[k]);
                                        assert(pv_resolved(self.physical_volumes, pb[k]));
                                    } else {
                                        let m = choose|m: int|
                                            0 <= m < self.physical_volumes.nodes@.len()
                                                && #[trigger] self.physical_volumes.nodes@[m]
                                                == gnode;
                                        assert(self.physical_volumes.nodes@[m].node == pvs@[k].0
                                            && self.physical_volumes.nodes@[m].name == Some(
                                            pvs@[k].1.path,
                                        ) && self.physical_volumes.nodes@[m].uuid == Some(
                                            pvs@[k].1.uuid,
                                        ) && self.physical_volumes.nodes@[m].size_bytes == Some(
                                            pvs@[k].1.size_bytes,
                                        ));
                                    }
                                }
                            }
                        }
                    }
                }
                j = j + 1;
            }

            let lv_paths = vg.lvs();
            let mut lvs: Vec<LvmLv> = Vec::new();
            let ln = lv_paths.len();
            let mut j: usize = 0;
            while j < ln
                invariant
                    ln == lv_paths@.len(),
                    j <= ln,
                    forall|k: int|
                        0 <= k < lvs@.len() ==> lv_resolved(
                            self.logical_volumes,
                            #[trigger] lvs@[k],
                        ),
                decreases ln - j,
            {
                let ghost lb = lvs@;
                if let Some(id) = parse_node_id(lv_paths[j].as_str()) {
                    if let Some(node) = find_lv(&self.logical_volumes, id) {
                        let ghost gnode = node;
                        let lvp = crate::lvmbus::LvPath { node };
                        if let (Ok(lname), Ok(luuid), Ok(lpath)) = (
                            lvp.name(),
                            lvp.uuid(),
                            lvp.path(),
                        ) {
                            lvs.push(LvmLv { name: lname, path: lpath, uuid: luuid });
                            proof {
                                assert forall|k: int|
                                    0 <= k < lvs@.len() implies lv_resolved(
                                    self.logical_volumes,
                                    #[trigger] lvs@[k],
                                ) by {
                                    if k < lvs@.len() - 1 {
                                        assert(lvs@[k] == lb[k]);
                                        assert(lv_resolved(self.logical_volumes, lb[k]));
                                    } else {
                                        let m = choose|m: int|
                                            0 <= m < self.logical_volumes.nodes@.len()
                                                && #[trigger] self.logical_volumes.nodes@[m]
                                                == gnode;
                                        assert(self.logical_volumes.nodes@[m].name == Some(
                                            lvs@[k].name,
                                        ) && self.logical_volumes.nodes@[m].uuid == Some(
                                            lvs@[k].uuid,
                                        ) && self.logical_volumes.nodes@[m].path == Some(
                                            lvs@[k].path,
                                        ));
                                    }
                                }
                            }
                        }
                    }
                }
                j = j + 1;
            }

            proof {
                assert(self.volume_groups.nodes@[i as int].name == Some(name));
                assert(self.volume_groups.nodes@[i as int].extent_size_bytes == Some(
                    extent_size,
                ));
                assert(self.volume_groups.nodes@[i as int].extent_count == Some(extents));
                assert(self.volume_groups.nodes@[i as int].extent_free_count == Some(
                    extents_free,
                ));
            }
            let ghost ob = out@;
            let ghost gpvs = pvs@;
            let ghost glvs = lvs@;
            out.push(VgInfo { name, extent_size, extents, extents_free, pvs, lvs });
            proof {
                assert(out@[out@.len() - 1].pvs@ == gpvs);
                assert(out@[out@.len() - 1].lvs@ == glvs);
                assert forall|j2: int, k: int|
                    0 <= j2 < i + 1 && 0 <= k < (#[trigger] out@[j2]).pvs@.len()
                        implies pv_resolved(
                    self.physical_volumes,
                    #[trigger] out@[j2].pvs@[k],
                ) by {
                    if j2 < i {
                        assert(out@[j2] == ob[j2]);
                        assert(pv_resolved(self.physical_volumes, ob[j2].pvs@[k]));
                    } else {
                        assert(pv_resolved(self.physical_volumes, gpvs[k]));
                    }
                }
                assert forall|j2: int, k: int|
                    0 <= j2 < i + 1 && 0 <= k < (#[trigger] out@[j2]).lvs@.len()
                        implies lv_resolved(
                    self.logical_volumes,
                    #[trigger] out@[j2].lvs@[k],
                ) by {
                    if j2 < i {
                        assert(out@[j2] == ob[j2]);
                        assert(lv_resolved(self.logical_volumes, ob[j2].lvs@[k]));
                    } else {
                        assert(lv_resolved(self.logical_volumes, glvs[k]));
                    }
                }
            }
            i = i + 1;
        }
        proof {
            assert forall|i2: int|
                0 <= i2 < self.volume_groups.nodes@.len() implies vg_node_complete(
                #[trigger] self.volume_groups.nodes@[i2],
            ) by {
                assert(self.volume_groups.nodes@[i2].name == Some(out@[i2].name));
            }
        }
        Ok(out)
    }
}

/// The first physical volume of the snapshot at the given node, if any.
pub fn find_pv(conn: &PvConn, id: u32) -> (r: Option<crate::lvmbus::PvNode>)
    ensures
        r matches Some(node) ==> node.node == id && exists|m: int|
            0 <= m < conn.nodes@.len() && #[trigger] conn.nodes@[m] == node,
        r is None ==> forall|m: int|
            0 <= m < conn.nodes@.len() ==> (#[trigger] conn.nodes@[m]).node != id,
{
    let n = conn.nodes.len();
    let mut i: usize = 0;
    while i < n
        invariant
            n == conn.nodes@.len(),
            i <= n,
            forall|m: int| 0 <= m < i ==> (#[trigger] conn.nodes@[m]).node != id,
        decreases n - i,
    {
        if conn.nodes[i].node == id {
            let node = conn.nodes[i].clone_node();
            proof {
                assert(conn.nodes@[i as int] == node);
            }
            return Some(node);
        }
        i = i + 1;
    }
    None
}

/// The first logical volume of the snapshot at the given node, if any.
pub fn find_lv(conn: &LvConn, id: u32) -> (r: Option<crate::lvmbus::LvNode>)
    ensures
        r matches Some(node) ==> node.node == id && exists|m: int|
            0 <= m < conn.nodes@.len() && #[trigger] conn.nodes@[m] == node,
        r is None ==> forall|m: int|
            0 <= m < conn.nodes@.len() ==> (#[trigger] conn.nodes@[m]).node != id,
{
    let n = conn.nodes.len();
    let mut i: usize = 0;
    while i < n
        invariant
            n == conn.nodes@.len(),
            i <= n,
            forall|m: int| 0 <= m < i ==> (#[trigger] conn.nodes@[m]).node != id,
        decreases n - i,
    {
        if conn.nodes[i].node == id {
            let node = conn.nodes[i].clone_node();
            proof {
                assert(conn.nodes@[i as int] == node);
            }
            return Some(node);
        }
        i = i + 1;
    }
    None
}

} // verus!
