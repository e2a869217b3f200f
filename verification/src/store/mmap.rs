use rand::rngs::ThreadRng;
use rand::RngCore;
use vstd::prelude::*;

verus! {

#[verifier::external_type_specification]
#[verifier::external_body]
pub struct ExThreadRng(ThreadRng);

/// The lowercase hexadecimal digit for `n`, where `0 <= n < 16`.
pub open spec fn hex_digit(n: int) -> char {
    if n < 10 {
        ('0' as int + n) as char
    } else {
        ('a' as int + (n - 10)) as char
    }
}

/// `bytes` in lowercase hexadecimal: two digits per byte, the high one first.
pub open spec fn hex_chars(bytes: Seq<u8>) -> Seq<char> {
    Seq::new(
        2 * bytes.len(),
        |i: int|
            if i % 2 == 0 {
                hex_digit(bytes[i / 2] as int / 16)
            } else {
                hex_digit(bytes[i / 2] as int % 16)
            },
    )
}

/// Distinct digits below sixteen are spelled with distinct characters.
proof fn lemma_hex_digit_injective(a: int, b: int)
    requires
        0 <= a < 16,
        0 <= b < 16,
        hex_digit(a) == hex_digit(b),
    ensures
        a == b,
{
    let ca = hex_digit(a) as int;
    let cb = hex_digit(b) as int;
    assert(ca == (if a < 10 { 48 + a } else { 97 + (a - 10) }));
    assert(cb == (if b < 10 { 48 + b } else { 97 + (b - 10) }));
}

/// Distinct byte strings have distinct hexadecimal spellings, so distinct random bytes give
/// distinct backing files.
pub proof fn lemma_hex_chars_injective(a: Seq<u8>, b: Seq<u8>)
    requires
        hex_chars(a) == hex_chars(b),
    ensures
        a == b,
{
    assert(hex_chars(a).len() == 2 * a.len());
    assert(a.len() == b.len());
    assert forall|i: int| 0 <= i < a.len() implies #[trigger] a[i] == b[i] by {
        let x = a[i] as int;
        let y = b[i] as int;
        let j = 2 * i;
        let k = 2 * i + 1;
        assert(j % 2 == 0 && j / 2 == i);
        assert(k % 2 == 1 && k / 2 == i);
        assert(hex_chars(a)[j] == hex_digit(x / 16));
        assert(hex_chars(b)[j] == hex_digit(y / 16));
        assert(hex_chars(a)[k] == hex_digit(x % 16));
        assert(hex_chars(b)[k] == hex_digit(y % 16));
        lemma_hex_digit_injective(x / 16, y / 16);
        lemma_hex_digit_injective(x % 16, y % 16);
    }
    assert(a =~= b);
}

/// Calls `hex::encode`, which writes each byte as two lowercase hexadecimal digits, the
/// high one first.
#[verifier::external_body]
fn hex_encode(data: &[u8; 16]) -> (r: String)
    ensures
        r@ == hex_chars(data@),
{
    hex::encode(data)
}

/// Calls `rand::rng`, the generator local to this thread. Nothing is claimed of it.
#[verifier::external_body]
fn thread_rng() -> (r: ThreadRng) {
    rand::rng()
}

/// Calls `RngCore::fill_bytes` on the thread's generator: the bytes come back random, so
/// nothing is claimed of them but their number, which the type fixes.
#[verifier::external_body]
fn fill_random(rng: &mut ThreadRng, dest: &mut [u8; 16]) {
    rng.fill_bytes(dest)
}

/// The name of the backing file for the bytes `name`: their hexadecimal spelling.
pub fn backing_name_for(name: &[u8; 16]) -> (r: String)
    ensures
        r@ == hex_chars(name@),
{
    hex_encode(name)
}

/// A fresh name for a backing file: sixteen random bytes in hexadecimal.
pub fn backing_name() -> (r: String)
    ensures
        exists|name: Seq<u8>| name.len() == 16 && r@ == hex_chars(name),
{
    let mut name = [0u8; 16];
    let mut rng = thread_rng();
    fill_random(&mut rng, &mut name);
    let r = backing_name_for(&name);
    assert(name@.len() == 16);
    r
}

/// The number of bytes that `size` values of `V` take.
pub fn backing_len<V>(size: usize) -> (r: u64)
    requires
        vstd::layout::size_of::<V>() * size <= usize::MAX,
    ensures
        r == vstd::layout::size_of::<V>() * size,
{
    let cell = core::mem::size_of::<V>();
    (cell * size) as u64
}

/// Sets every cell of `buff` to a clone of `fill`.
pub fn fill_slice<V: Clone>(buff: &mut [V], fill: &V)
    ensures
        final(buff)@.len() == old(buff)@.len(),
        forall|i: int| 0 <= i < old(buff)@.len() ==> cloned(*fill, #[trigger] final(buff)@[i]),
{
    let n = buff.len();
    for i in 0..n
        invariant
            n == old(buff)@.len(),
            buff@.len() == n,
            forall|j: int| 0 <= j < i ==> cloned(*fill, #[trigger] buff@[j]),
    {
        buff[i] = fill.clone();
    }
}

} // verus!
