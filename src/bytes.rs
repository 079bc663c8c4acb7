//! Byte-level helpers for the line-oriented text protocols.
use vstd::prelude::*;
use vstd::utf8::{decode_utf8, valid_utf8};

verus! {

/// The bytes of an ASCII text, one byte per character.
pub open spec fn ascii(s: Seq<char>) -> Seq<u8> {
    Seq::new(s.len(), |i: int| s[i] as u8)
}

/// `true` when `a` and `b` hold the same bytes.
pub fn same_bytes(a: &[u8], b: &[u8]) -> (r: bool)
    ensures
        r == (a@ == b@),
{
    if a.len() != b.len() {
        return false;
    }
    let mut i: usize = 0;
    while i < a.len()
        invariant
            a@.len() == b@.len(),
            0 <= i <= a@.len(),
            forall|j: int| 0 <= j < i ==> a@[j] == b@[j],
        decreases a@.len() - i,
    {
        if a[i] != b[i] {
            return false;
        }
        i = i + 1;
    }
    assert(a@ =~= b@);
    true
}

/// `true` when `a` holds exactly the bytes of the ASCII word `w`.
pub fn is_word(a: &[u8], w: &str) -> (r: bool)
    requires
        vstd::string::is_ascii(w),
    ensures
        r == (a@ == ascii(w@)),
{
    broadcast use vstd::string::is_ascii_spec_bytes;

    let b = w.as_bytes();
    assert(b@ =~= ascii(w@));
    same_bytes(a, b)
}

/// The pieces of `s` between separators, gathered onto the piece `cur`.
pub open spec fn split_onto(s: Seq<u8>, sep: u8, cur: Seq<u8>) -> Seq<Seq<u8>>
    decreases s.len(),
{
    if s.len() == 0 {
        seq![cur]
    } else if s[0] == sep {
        seq![cur] + split_onto(s.drop_first(), sep, Seq::empty())
    } else {
        split_onto(s.drop_first(), sep, cur.push(s[0]))
    }
}

/// The pieces of `s` between occurrences of `sep`, as `<[u8]>::split` yields
/// them: one more piece than there are separators, empty pieces included.
pub open spec fn fields(s: Seq<u8>, sep: u8) -> Seq<Seq<u8>> {
    split_onto(s, sep, Seq::empty())
}

/// The views of a sequence of slices.
pub open spec fn views(v: Seq<&[u8]>) -> Seq<Seq<u8>> {
    v.map_values(|x: &[u8]| x@)
}

proof fn lemma_split_onto_sep(s: Seq<u8>, sep: u8, j: int, cur: Seq<u8>)
    requires
        0 <= j < s.len(),
        s[j] == sep,
    ensures
        split_onto(s.subrange(j, s.len() as int), sep, cur) == seq![cur] + split_onto(
            s.subrange(j + 1, s.len() as int),
            sep,
            Seq::empty(),
        ),
{
    assert(s.subrange(j, s.len() as int).drop_first() =~= s.subrange(j + 1, s.len() as int));
}

proof fn lemma_split_onto_other(s: Seq<u8>, sep: u8, j: int, cur: Seq<u8>)
    requires
        0 <= j < s.len(),
        s[j] != sep,
    ensures
        split_onto(s.subrange(j, s.len() as int), sep, cur) == split_onto(
            s.subrange(j + 1, s.len() as int),
            sep,
            cur.push(s[j]),
        ),
{
    assert(s.subrange(j, s.len() as int).drop_first() =~= s.subrange(j + 1, s.len() as int));
}

/// Splits `s` at every occurrence of `sep`.
pub fn split_at_byte(s: &[u8], sep: u8) -> (r: Vec<&[u8]>)
    ensures
        views(r@) == fields(s@, sep),
{
    let mut out: Vec<&[u8]> = Vec::new();
    let mut start: usize = 0;
    let mut j: usize = 0;
    proof {
        assert(s@.subrange(0, s@.len() as int) =~= s@);
        assert(s@.subrange(0, 0) =~= Seq::<u8>::empty());
        assert(views(out@) =~= Seq::<Seq<u8>>::empty());
        assert(views(out@) + fields(s@, sep) =~= fields(s@, sep));
    }
    while j < s.len()
        invariant
            0 <= start <= j <= s@.len(),
            views(out@) + split_onto(s@.subrange(j as int, s@.len() as int), sep, s@.subrange(start as int, j as int)) == fields(s@, sep),
        decreases s@.len() - j,
    {
        let ghost cur = s@.subrange(start as int, j as int);
        if s[j] == sep {
            proof {
                lemma_split_onto_sep(s@, sep, j as int, cur);
            }
            let piece = vstd::slice::slice_subrange(s, start, j);
            let ghost before = views(out@);
            out.push(piece);
            assert(views(out@) =~= before.push(piece@));
            start = j + 1;
            j = j + 1;
            proof {
                assert(s@.subrange(start as int, j as int) =~= Seq::<u8>::empty());
                assert(views(out@) + split_onto(s@.subrange(j as int, s@.len() as int), sep, Seq::empty()) =~= before + (seq![cur] + split_onto(s@.subrange(j as int, s@.len() as int), sep, Seq::empty())));
            }
        } else {
            proof {
                lemma_split_onto_other(s@, sep, j as int, cur);
                assert(cur.push(s@[j as int]) =~= s@.subrange(start as int, j + 1));
            }
            j = j + 1;
        }
    }
    let piece = vstd::slice::slice_subrange(s, start, s.len());
    let ghost before = views(out@);
    out.push(piece);
    proof {
        assert(views(out@) =~= before.push(piece@));
        assert(s@.subrange(j as int, s@.len() as int) =~= Seq::<u8>::empty());
        assert(before + seq![piece@] =~= before.push(piece@));
    }
    out
}

/// Index of the first occurrence of `b` in `s`, or the length of `s` when
/// there is none.
pub open spec fn first_index(s: Seq<u8>, b: u8) -> int
    decreases s.len(),
{
    if s.len() == 0 {
        0
    } else if s[0] == b {
        0
    } else {
        1 + first_index(s.drop_first(), b)
    }
}

proof fn lemma_first_index(s: Seq<u8>, b: u8, i: int)
    requires
        0 <= i <= s.len(),
        forall|j: int| 0 <= j < i ==> s[j] != b,
        i == s.len() || s[i] == b,
    ensures
        first_index(s, b) == i,
    decreases s.len(),
{
    if s.len() > 0 && i > 0 {
        let t = s.drop_first();
        assert forall|j: int| 0 <= j < i - 1 implies t[j] != b by {
            assert(t[j] == s[j + 1]);
        }
        lemma_first_index(t, b, i - 1);
    }
}

/// The first occurrence of `b` in `s` is where `first_index` says.
pub proof fn lemma_first_index_bounds(s: Seq<u8>, b: u8)
    ensures
        0 <= first_index(s, b) <= s.len(),
        forall|j: int| 0 <= j < first_index(s, b) ==> s[j] != b,
        first_index(s, b) < s.len() ==> s[first_index(s, b)] == b,
    decreases s.len(),
{
    if s.len() > 0 && s[0] != b {
        let t = s.drop_first();
        lemma_first_index_bounds(t, b);
        assert forall|j: int| 0 <= j < first_index(s, b) implies s[j] != b by {
            if j > 0 {
                assert(s[j] == t[j - 1]);
            }
        }
    }
}

/// Position of the first occurrence of `b` in `s`, or the length of `s`.
pub fn find_byte(s: &[u8], b: u8) -> (r: usize)
    ensures
        r as int == first_index(s@, b),
        r <= s@.len(),
{
    let mut i: usize = 0;
    while i < s.len() && s[i] != b
        invariant
            0 <= i <= s@.len(),
            forall|j: int| 0 <= j < i ==> s@[j] != b,
        decreases s@.len() - i,
    {
        i = i + 1;
    }
    proof {
        lemma_first_index(s@, b, i as int);
    }
    i
}

/// `true` when every byte of `s` is an ASCII decimal digit.
pub open spec fn all_digits(s: Seq<u8>) -> bool {
    forall|i: int| 0 <= i < s.len() ==> 48 <= #[trigger] s[i] <= 57
}

/// The number that the decimal digits `s` write.
pub open spec fn decimal(s: Seq<u8>) -> nat
    decreases s.len(),
{
    if s.len() == 0 {
        0
    } else {
        decimal(s.drop_last()) * 10 + (s.last() - 48) as nat
    }
}

/// What `u32::from_str` gives for the text `s`: an optional `+` sign and at
/// least one decimal digit, whose value fits in 32 bits.
pub open spec fn u32_of(s: Seq<u8>) -> Option<u32> {
    let d = if s.len() > 0 && s[0] == 43 { s.drop_first() } else { s };
    if d.len() > 0 && all_digits(d) && decimal(d) <= u32::MAX {
        Some(decimal(d) as u32)
    } else {
        None
    }
}

proof fn lemma_decimal_grows(s: Seq<u8>, i: int)
    requires
        0 <= i <= s.len(),
        all_digits(s),
    ensures
        decimal(s.subrange(0, i)) <= decimal(s),
    decreases s.len() - i,
{
    if i < s.len() {
        lemma_decimal_grows(s, i + 1);
        let t = s.subrange(0, i + 1);
        assert(t.drop_last() =~= s.subrange(0, i));
        assert(48 <= s[i] <= 57);
    } else {
        assert(s.subrange(0, i) =~= s);
    }
}

/// Reads the text `s` as an unsigned 32-bit number, as `u32::from_str` does.
pub fn parse_u32(s: &[u8]) -> (r: Option<u32>)
    ensures
        r == u32_of(s@),
{
    let mut i: usize = 0;
    if s.len() > 0 && s[0] == 43 {
        i = 1;
    }
    let ghost d = if s@.len() > 0 && s@[0] == 43 { s@.drop_first() } else { s@ };
    if i == s.len() {
        return None;
    }
    let first: usize = i;
    assert(u32_of(s@) == (if d.len() > 0 && all_digits(d) && decimal(d) <= u32::MAX {
        Some(decimal(d) as u32)
    } else {
        None
    }));
    let mut acc: u64 = 0;
    while i < s.len()
        invariant
            first <= i <= s@.len(),
            first < s@.len(),
            d == s@.subrange(first as int, s@.len() as int),
            u32_of(s@) == (if d.len() > 0 && all_digits(d) && decimal(d) <= u32::MAX {
                Some(decimal(d) as u32)
            } else {
                None
            }),
            all_digits(s@.subrange(first as int, i as int)),
            acc as int == decimal(s@.subrange(first as int, i as int)),
            acc <= u32::MAX,
        decreases s@.len() - i,
    {
        let c = s[i];
        let ghost pre = s@.subrange(first as int, i as int);
        let ghost next = s@.subrange(first as int, i + 1);
        assert(next.drop_last() =~= pre);
        if c < 48 || c > 57 {
            assert(d[i - first] == c);
            assert(!all_digits(d));
            assert(u32_of(s@).is_none());
            return None;
        }
        assert(all_digits(next)) by {
            assert forall|k: int| 0 <= k < next.len() implies 48 <= #[trigger] next[k] <= 57 by {
                if k < pre.len() {
                    assert(next[k] == pre[k]);
                }
            }
        }
        assert(next.last() == c);
        acc = acc * 10 + (c - 48) as u64;
        assert(acc as int == decimal(next));
        if acc > u32::MAX as u64 {
            proof {
                if all_digits(d) {
                    assert(d.subrange(0, i + 1 - first) =~= next);
                    lemma_decimal_grows(d, i + 1 - first);
                }
                assert(u32_of(s@).is_none());
            }
            return None;
        }
        i = i + 1;
    }
    assert(s@.subrange(first as int, i as int) =~= d);
    Some(acc as u32)
}

/// Relies on `String::from_utf8`: it succeeds exactly on valid UTF-8, and the
/// string holds the decoded characters.
#[verifier::external_body]
pub fn text_of(b: &[u8]) -> (r: Option<String>)
    ensures
        r.is_some() == valid_utf8(b@),
        r.is_some() ==> r.unwrap()@ == decode_utf8(b@),
{
    String::from_utf8(b.to_vec()).ok()
}

} // verus!
