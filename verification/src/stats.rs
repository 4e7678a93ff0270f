use rand::distributions::Distribution;
use rand::distributions::Uniform;
use vstd::prelude::*;

verus! {

/// Every byte of `data` lies in the alphabet `0..=alphabet_size`.
pub open spec fn within_alphabet(data: Seq<u8>, alphabet_size: u8) -> bool {
    forall|k: int| 0 <= k < data.len() ==> #[trigger] data[k] <= alphabet_size
}

/// Draws one byte with `rand::distributions::Uniform` over the closed range
/// `0..=max`, from the thread's generator (`rand::thread_rng`). Trusted: the
/// byte drawn is not above `max`, which is all that holds of every draw.
#[verifier::external_body]
fn random_byte(max: u8) -> (byte: u8)
    ensures
        byte <= max,
{
    Uniform::from(0..=max).sample(&mut rand::thread_rng())
}

/// `length` bytes, each drawn from the alphabet `0..=alphabet_size`.
pub fn random_sequence(length: usize, alphabet_size: u8) -> (data: Vec<u8>)
    ensures
        data@.len() == length,
        within_alphabet(data@, alphabet_size),
{
    let mut data: Vec<u8> = Vec::new();
    let mut k: usize = 0;
    while k < length
        invariant
            k <= length,
            data@.len() == k,
            within_alphabet(data@, alphabet_size),
        decreases length - k,
    {
        let byte = random_byte(alphabet_size);
        data.push(byte);
        k += 1;
    }
    data
}

/// A random source and a random target, each of `length` bytes drawn from the
/// alphabet `0..=alphabet_size`.
pub fn generate_random_data(length: usize, alphabet_size: u8) -> (data: (Vec<u8>, Vec<u8>))
    ensures
        data.0@.len() == length,
        data.1@.len() == length,
        within_alphabet(data.0@, alphabet_size),
        within_alphabet(data.1@, alphabet_size),
{
    let source = random_sequence(length, alphabet_size);
    let target = random_sequence(length, alphabet_size);
    (source, target)
}

} // verus!
