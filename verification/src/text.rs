use vstd::prelude::*;
use vstd::string::StringExecFns;
use vstd::string::StringSliceAdditionalSpecFns;
use vstd::utf8::*;

verus! {

/// Two texts with the same UTF-8 encoding are the same text.
pub proof fn lemma_same_bytes_same_text(a: Seq<char>, b: Seq<char>)
    requires
        encode_utf8(a) == encode_utf8(b),
    ensures
        a == b,
{
    encode_utf8_decode_utf8(a);
    encode_utf8_decode_utf8(b);
}

/// Whether two string slices hold the same text.
pub fn str_eq(a: &str, b: &str) -> (r: bool)
    ensures
        r == (a@ == b@),
{
    let x = a.as_bytes();
    let y = b.as_bytes();
    if x.len() != y.len() {
        return false;
    }
    let mut i: usize = 0;
    while i < x.len()
        invariant
            i <= x.len(),
            x.len() == y.len(),
            x@ == a.spec_bytes(),
            y@ == b.spec_bytes(),
            forall|k: int| 0 <= k < i ==> x@[k] == y@[k],
        decreases x.len() - i,
    {
        if x[i] != y[i] {
            return false;
        }
        i += 1;
    }
    proof {
        assert(x@ =~= y@);
        lemma_same_bytes_same_text(a@, b@);
    }
    true
}

/// The two texts one after the other.
pub fn concat(a: &str, b: &str) -> (r: String)
    ensures
        r@ == a@ + b@,
{
    let mut r = String::from_str(a);
    r.append(b);
    r
}

/// A character boundary of a text is one of each prefix that reaches it.
pub proof fn lemma_boundary_in_prefix(bytes: Seq<u8>, start: int, end: int)
    requires
        valid_utf8(bytes),
        0 <= start <= end <= bytes.len(),
        is_char_boundary(bytes, start),
        is_char_boundary(bytes, end),
    ensures
        valid_utf8(bytes.subrange(0, end)),
        is_char_boundary(bytes.subrange(0, end), start),
{
    let head = bytes.subrange(0, end);
    valid_utf8_split(bytes, end);
    if start < end {
        is_char_boundary_iff_not_is_continuation_byte(bytes, start);
        is_char_boundary_iff_not_is_continuation_byte(head, start);
    } else {
        is_char_boundary_start_end_of_seq(head);
    }
}

/// The bytes between two character boundaries of a text are a text, and
/// a boundary of the whole between them is a boundary of that part.
pub proof fn lemma_boundary_in_part(bytes: Seq<u8>, start: int, middle: int, end: int)
    requires
        valid_utf8(bytes),
        0 <= start <= middle <= end <= bytes.len(),
        is_char_boundary(bytes, start),
        is_char_boundary(bytes, middle),
        is_char_boundary(bytes, end),
    ensures
        valid_utf8(bytes.subrange(start, end)),
        is_char_boundary(bytes.subrange(start, end), middle - start),
{
    let head = bytes.subrange(0, end);
    let part = bytes.subrange(start, end);
    lemma_boundary_in_prefix(bytes, start, end);
    valid_utf8_split(head, start);
    assert(head.subrange(start, head.len() as int) =~= part);
    if middle < end {
        is_char_boundary_iff_not_is_continuation_byte(bytes, middle);
        is_char_boundary_iff_not_is_continuation_byte(part, middle - start);
    } else {
        is_char_boundary_start_end_of_seq(part);
    }
}

/// Two neighbouring parts of a text, cut at character boundaries, decode
/// to the text of the part that spans both.
pub proof fn lemma_parts_join(bytes: Seq<u8>, start: int, middle: int, end: int)
    requires
        valid_utf8(bytes),
        0 <= start <= middle <= end <= bytes.len(),
        is_char_boundary(bytes, start),
        is_char_boundary(bytes, middle),
        is_char_boundary(bytes, end),
    ensures
        decode_utf8(bytes.subrange(start, middle)) + decode_utf8(bytes.subrange(middle, end))
            == decode_utf8(bytes.subrange(start, end)),
{
    let part = bytes.subrange(start, end);
    lemma_boundary_in_part(bytes, start, middle, end);
    decode_utf8_split(part, middle - start);
    assert(part.subrange(0, middle - start) =~= bytes.subrange(start, middle));
    assert(part.subrange(middle - start, part.len() as int) =~= bytes.subrange(middle, end));
}

/// The part of `s` between two character boundaries, given as byte offsets.
pub(crate) fn slice_str(s: &str, start: usize, end: usize) -> (r: &str)
    requires
        start <= end <= s.spec_bytes().len(),
        is_char_boundary(s.spec_bytes(), start as int),
        is_char_boundary(s.spec_bytes(), end as int),
    ensures
        r.spec_bytes() == s.spec_bytes().subrange(start as int, end as int),
        r@ == decode_utf8(s.spec_bytes().subrange(start as int, end as int)),
{
    let (head, _) = s.split_at(end);
    proof {
        encode_utf8_valid_utf8(s@);
        lemma_boundary_in_prefix(s.spec_bytes(), start as int, end as int);
    }
    let (_, r) = head.split_at(start);
    proof {
        assert(r.spec_bytes() =~= s.spec_bytes().subrange(start as int, end as int));
        encode_utf8_decode_utf8(r@);
    }
    r
}

} // verus!
