//! Character-level text utilities: splitting a captured process listing into
//! lines, splitting a line into whitespace-delimited fields, and comparing
//! strings.
//!
//! A listing command pads its columns with a variable amount of whitespace,
//! so splitting a row must never produce empty fields; [`spec_fields`] and
//! [`fields`] discard them. Lines, by contrast, are kept even when empty, so
//! that line order (and hence "first matching line") is unambiguous.

use vstd::prelude::*;
use vstd::string::*;

verus! {

/// Whether `c` separates fields in a listing row: the whitespace characters
/// a listing command pads its columns with. A carriage return counts, so a
/// line taken out of carriage-return-and-line-feed-terminated output sheds
/// it like any other padding.
pub open spec fn is_field_space(c: char) -> bool {
    c == ' ' || c == '\t' || c == '\r' || c == '\n'
}

/// Decide [`is_field_space`].
pub fn field_space(c: char) -> (r: bool)
    ensures
        r == is_field_space(c),
{
    c == ' ' || c == '\t' || c == '\r' || c == '\n'
}

/// The whitespace-delimited fields of `cur + s`, where `cur` is the
/// (possibly empty) text of the field gathered so far: maximal runs of
/// non-whitespace characters, with runs of whitespace yielding no empty
/// field.
pub open spec fn fields_from(s: Seq<char>, cur: Seq<char>) -> Seq<Seq<char>>
    decreases s.len(),
{
    if s.len() == 0 {
        if cur.len() > 0 {
            seq![cur]
        } else {
            seq![]
        }
    } else if is_field_space(s[0]) {
        if cur.len() > 0 {
            seq![cur] + fields_from(s.drop_first(), seq![])
        } else {
            fields_from(s.drop_first(), seq![])
        }
    } else {
        fields_from(s.drop_first(), cur.push(s[0]))
    }
}

/// The whitespace-delimited fields of `s`: maximal runs of non-whitespace
/// characters, consecutive whitespace yielding no empty field.
pub open spec fn spec_fields(s: Seq<char>) -> Seq<Seq<char>> {
    fields_from(s, seq![])
}

/// The segments of `cur + s` around each occurrence of `sep`, empty segments
/// kept: splitting on `sep` in the usual sense.
pub open spec fn segments_from(s: Seq<char>, sep: char, cur: Seq<char>) -> Seq<Seq<char>>
    decreases s.len(),
{
    if s.len() == 0 {
        seq![cur]
    } else if s[0] == sep {
        seq![cur] + segments_from(s.drop_first(), sep, seq![])
    } else {
        segments_from(s.drop_first(), sep, cur.push(s[0]))
    }
}

/// The segments of `s` around each occurrence of `sep`, empty segments kept.
pub open spec fn spec_segments(s: Seq<char>, sep: char) -> Seq<Seq<char>> {
    segments_from(s, sep, seq![])
}

/// Character-for-character string equality.
pub fn str_eq(a: &str, b: &str) -> (r: bool)
    ensures
        r == (a@ == b@),
{
    let a_len = a.unicode_len();
    let b_len = b.unicode_len();
    if a_len != b_len {
        return false;
    }
    let mut i: usize = 0;
    while i < a_len
        invariant
            a_len == a@.len(),
            a_len == b@.len(),
            i <= a_len,
            forall|j: int| 0 <= j < i ==> a@[j] == b@[j],
        decreases a_len - i,
    {
        if a.get_char(i) != b.get_char(i) {
            return false;
        }
        i += 1;
    }
    proof {
        assert(a@ =~= b@);
    }
    true
}

/// Split `s` into its whitespace-delimited fields, discarding empty ones:
/// runs of consecutive whitespace collapse, and leading or trailing
/// whitespace adds nothing.
pub fn fields(s: &str) -> (v: Vec<String>)
    ensures
        v.deep_view() == spec_fields(s@),
{
    let n = s.unicode_len();
    let mut out: Vec<String> = Vec::new();
    let mut start: usize = 0;
    let mut i: usize = 0;
    proof {
        assert(s@.skip(0) =~= s@);
        assert(s@.subrange(0, 0) =~= Seq::<char>::empty());
        assert(out.deep_view() =~= Seq::<Seq<char>>::empty());
        assert(out.deep_view() + fields_from(s@, Seq::<char>::empty()) =~= fields_from(
            s@,
            Seq::<char>::empty(),
        ));
    }
    while i < n
        invariant
            n == s@.len(),
            start <= i <= n,
            out.deep_view() + fields_from(
                s@.skip(i as int),
                s@.subrange(start as int, i as int),
            ) == spec_fields(s@),
        decreases n - i,
    {
        let ghost prev_out = out.deep_view();
        let ghost cur = s@.subrange(start as int, i as int);
        let c = s.get_char(i);
        proof {
            assert(s@.skip(i as int)[0] == s@[i as int]);
            assert(s@.skip(i as int).drop_first() =~= s@.skip(i as int + 1));
        }
        if field_space(c) {
            if start < i {
                let field = String::from_str(s.substring_char(start, i));
                out.push(field);
                proof {
                    assert(out.deep_view() =~= prev_out.push(cur));
                    assert(fields_from(s@.skip(i as int), cur) == seq![cur] + fields_from(
                        s@.skip(i as int + 1),
                        seq![],
                    ));
                    assert(prev_out + (seq![cur] + fields_from(s@.skip(i as int + 1), seq![]))
                        =~= (prev_out.push(cur)) + fields_from(s@.skip(i as int + 1), seq![]));
                }
            }
            start = i + 1;
            proof {
                assert(s@.subrange(start as int, i as int + 1) =~= Seq::<char>::empty());
            }
        } else {
            proof {
                assert(s@.subrange(start as int, i as int + 1) =~= cur.push(s@[i as int]));
            }
        }
        i += 1;
    }
    proof {
        assert(s@.skip(n as int) =~= Seq::<char>::empty());
    }
    if start < n {
        let ghost prev_out = out.deep_view();
        let ghost cur = s@.subrange(start as int, n as int);
        let field = String::from_str(s.substring_char(start, n));
        out.push(field);
        proof {
            assert(out.deep_view() =~= prev_out.push(cur));
            assert(prev_out + seq![cur] =~= prev_out.push(cur));
        }
    }
    out
}

/// Split `s` into its `sep`-delimited segments, keeping empty ones.
pub fn segments(s: &str, sep: char) -> (v: Vec<String>)
    ensures
        v.deep_view() == spec_segments(s@, sep),
{
    let n = s.unicode_len();
    let mut out: Vec<String> = Vec::new();
    let mut start: usize = 0;
    let mut i: usize = 0;
    proof {
        assert(s@.skip(0) =~= s@);
        assert(s@.subrange(0, 0) =~= Seq::<char>::empty());
        assert(out.deep_view() =~= Seq::<Seq<char>>::empty());
        assert(out.deep_view() + segments_from(s@, sep, Seq::<char>::empty()) =~= segments_from(
            s@,
            sep,
            Seq::<char>::empty(),
        ));
    }
    while i < n
        invariant
            n == s@.len(),
            start <= i <= n,
            out.deep_view() + segments_from(
                s@.skip(i as int),
                sep,
                s@.subrange(start as int, i as int),
            ) == spec_segments(s@, sep),
        decreases n - i,
    {
        let ghost prev_out = out.deep_view();
        let ghost cur = s@.subrange(start as int, i as int);
        let c = s.get_char(i);
        proof {
            assert(s@.skip(i as int)[0] == s@[i as int]);
            assert(s@.skip(i as int).drop_first() =~= s@.skip(i as int + 1));
        }
        if c == sep {
            let segment = String::from_str(s.substring_char(start, i));
            out.push(segment);
            start = i + 1;
            proof {
                assert(out.deep_view() =~= prev_out.push(cur));
                assert(segments_from(s@.skip(i as int), sep, cur) == seq![cur] + segments_from(
                    s@.skip(i as int + 1),
                    sep,
                    seq![],
                ));
                assert(prev_out + (seq![cur] + segments_from(s@.skip(i as int + 1), sep, seq![]))
                    =~= (prev_out.push(cur)) + segments_from(s@.skip(i as int + 1), sep, seq![]));
                assert(s@.subrange(start as int, i as int + 1) =~= Seq::<char>::empty());
            }
        } else {
            proof {
                assert(s@.subrange(start as int, i as int + 1) =~= cur.push(s@[i as int]));
            }
        }
        i += 1;
    }
    let ghost prev_out = out.deep_view();
    let ghost cur = s@.subrange(start as int, n as int);
    let segment = String::from_str(s.substring_char(start, n));
    out.push(segment);
    proof {
        assert(s@.skip(n as int) =~= Seq::<char>::empty());
        assert(out.deep_view() =~= prev_out.push(cur));
        assert(prev_out + seq![cur] =~= prev_out.push(cur));
    }
    out
}

} // verus!
