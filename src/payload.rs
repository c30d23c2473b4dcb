use vstd::prelude::*;

verus! {

/// The values that the run uploads, one unsigned 32-bit integer per element.
pub open spec fn input_values_spec() -> Seq<u32> {
    seq![117u32, 114u32, 121u32, 121u32, 98u32, 32u32, 106u32, 98u32]
}

/// The four bytes of `v`, least significant first.
pub open spec fn le_bytes_of(v: u32) -> Seq<u8> {
    seq![
        (v % 256) as u8,
        ((v / 256) % 256) as u8,
        ((v / 65536) % 256) as u8,
        ((v / 16777216) % 256) as u8,
    ]
}

/// The little-endian byte image of a sequence of `u32` values.
pub open spec fn le_bytes(s: Seq<u32>) -> Seq<u8>
    decreases s.len(),
{
    if s.len() == 0 {
        Seq::empty()
    } else {
        le_bytes(s.drop_last()) + le_bytes_of(s.last())
    }
}

pub proof fn lemma_le_bytes_len(s: Seq<u32>)
    ensures
        le_bytes(s).len() == 4 * s.len(),
    decreases s.len(),
{
    if s.len() > 0 {
        lemma_le_bytes_len(s.drop_last());
    }
}

/// The fixed element values of the run.
pub fn input_values() -> (r: Vec<u32>)
    ensures
        r@ == input_values_spec(),
{
    let r = vec![117u32, 114u32, 121u32, 121u32, 98u32, 32u32, 106u32, 98u32];
    assert(r@ =~= input_values_spec());
    r
}

/// Encodes each value as four bytes, least significant first.
pub fn encode_le(values: &Vec<u32>) -> (r: Vec<u8>)
    requires
        values@.len() * 4 <= usize::MAX,
    ensures
        r@ == le_bytes(values@),
        r@.len() == 4 * values@.len(),
{
    let mut out: Vec<u8> = Vec::new();
    let mut i: usize = 0;
    while i < values.len()
        invariant
            i <= values@.len(),
            out@ == le_bytes(values@.take(i as int)),
        decreases values@.len() - i,
    {
        let v = values[i];
        out.push((v % 256) as u8);
        out.push(((v / 256) % 256) as u8);
        out.push(((v / 65536) % 256) as u8);
        out.push(((v / 16777216) % 256) as u8);
        proof {
            let t = values@.take(i + 1);
            assert(t.drop_last() =~= values@.take(i as int));
            assert(out@ =~= le_bytes(t));
        }
        i = i + 1;
    }
    assert(values@.take(values@.len() as int) =~= values@);
    proof {
        lemma_le_bytes_len(values@);
    }
    out
}

/// The bytes that the run uploads: each fixed value as four little-endian
/// bytes.
pub fn input_bytes() -> (r: Vec<u8>)
    ensures
        r@ == le_bytes(input_values_spec()),
        r@.len() == 32,
{
    let values = input_values();
    encode_le(&values)
}

} // verus!
