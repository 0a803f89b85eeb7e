//! Random numbers: the CPU's RDRAND when present, else a xorshift generator.
use vstd::prelude::*;
use vstd::bytes::{spec_u64_to_le_bytes, u64_to_le_bytes, lemma_auto_spec_u64_to_from_le_bytes};

verus! {

/// Seed of the software generator when the CPU has RDRAND.
pub const FALLBACK_SEED: u64 = 0xDEAD_BEEF_CAFE_BABE;
/// Seed of the software generator when the time-stamp counter reads zero.
pub const ZERO_TSC_SEED: u64 = 0xDEAD_BEEF;
/// RDRAND attempts before falling back to software.
pub const RDRAND_RETRIES: u32 = 10;

/// One step of the xorshift64 generator.
pub open spec fn xorshift(x: u64) -> u64 {
    let a = x ^ (x << 13u64);
    let b = a ^ (a >> 7u64);
    b ^ (b << 17u64)
}

/// The first `n` bytes the software generator produces from state `x`: the little-endian
/// bytes of each successive output.
pub open spec fn stream_bytes(x: u64, n: nat) -> Seq<u8>
    decreases n,
{
    if n == 0 {
        seq![]
    } else {
        let c: nat = if n < 8 { n } else { 8 };
        spec_u64_to_le_bytes(xorshift(x)).take(c as int) + stream_bytes(xorshift(x), (n - c) as nat)
    }
}

/// The software generator's state after `n` bytes were drawn from state `x`.
pub open spec fn stream_state(x: u64, n: nat) -> u64
    decreases n,
{
    if n == 0 {
        x
    } else {
        let c: nat = if n < 8 { n } else { 8 };
        stream_state(xorshift(x), (n - c) as nat)
    }
}

/// The random number source.
pub struct Rng {
    has_rdrand: bool,
    fallback: u64,
}

/// `x86_64::instructions::random::RdRand::new`: whether the CPU reports RDRAND (CPUID
/// leaf 1, ECX bit 30). The answer depends on the machine, so nothing is stated of it.
#[verifier::external_body]
fn cpu_has_rdrand() -> bool {
    x86_64::instructions::random::RdRand::new().is_some()
}

/// `x86_64::instructions::random::RdRand::get_u64`: one RDRAND draw, `None` when the
/// instruction reports failure or the CPU lacks it. The value is random, so nothing is
/// stated of it.
#[verifier::external_body]
fn rdrand_u64() -> Option<u64> {
    match x86_64::instructions::random::RdRand::new() {
        Some(r) => r.get_u64(),
        None => None,
    }
}

impl Rng {
    /// The CPU offers RDRAND.
    pub closed spec fn hardware(&self) -> bool {
        self.has_rdrand
    }

    /// State of the software generator.
    pub closed spec fn state(&self) -> u64 {
        self.fallback
    }

    /// A source that uses RDRAND when `has_rdrand`, and otherwise a software generator
    /// seeded from the time-stamp counter `tsc` (a fixed seed when it reads zero).
    pub fn from_parts(has_rdrand: bool, tsc: u64) -> (r: Rng)
        ensures
            r.hardware() == has_rdrand,
            r.state() == if has_rdrand {
                FALLBACK_SEED
            } else if tsc == 0 {
                ZERO_TSC_SEED
            } else {
                tsc
            },
    {
        let fallback = if has_rdrand {
            FALLBACK_SEED
        } else if tsc == 0 {
            ZERO_TSC_SEED
        } else {
            tsc
        };
        Rng { has_rdrand, fallback }
    }

    /// Detect RDRAND and set up the source; `tsc` seeds the software generator.
    pub fn init(tsc: u64) -> (r: Rng)
        ensures
            r.state() == if r.hardware() {
                FALLBACK_SEED
            } else if tsc == 0 {
                ZERO_TSC_SEED
            } else {
                tsc
            },
    {
        Self::from_parts(cpu_has_rdrand(), tsc)
    }

    /// One software step: the next xorshift value, which becomes the state.
    fn software(&mut self) -> (x: u64)
        ensures
            x == xorshift(old(self).state()),
            final(self).state() == x,
            final(self).hardware() == old(self).hardware(),
    {
        let x0 = self.fallback;
        let a = x0 ^ (x0 << 13u64);
        let b = a ^ (a >> 7u64);
        let x = b ^ (b << 17u64);
        assert(x == xorshift(x0)) by (bit_vector)
            requires
                a == x0 ^ (x0 << 13u64),
                b == a ^ (a >> 7u64),
                x == b ^ (b << 17u64),
        ;
        self.fallback = x;
        x
    }
}

/// A random `u64`: an RDRAND value when the CPU has it and one of ten draws succeeds,
/// else the software generator's next value.
pub fn random_u64(rng: &mut Rng) -> (x: u64)
    ensures
        final(rng).hardware() == old(rng).hardware(),
        !old(rng).hardware() ==> x == xorshift(old(rng).state()) && final(rng).state() == x,
        old(rng).hardware() ==> final(rng).state() == old(rng).state()
            || (x == xorshift(old(rng).state()) && final(rng).state() == x),
{
    if rng.has_rdrand {
        let mut attempt: u32 = 0;
        while attempt < RDRAND_RETRIES
            invariant
                attempt <= RDRAND_RETRIES,
                *rng == *old(rng),
                rng.has_rdrand,
            decreases RDRAND_RETRIES - attempt,
        {
            match rdrand_u64() {
                Some(v) => return v,
                None => {},
            }
            attempt = attempt + 1;
        }
    }
    rng.software()
}

/// The first `n` bytes of the little-endian encodings of `words`, one word after another.
pub open spec fn word_bytes(words: Seq<u64>, n: nat) -> Seq<u8> {
    Seq::new(n, |i: int| spec_u64_to_le_bytes(words[i / 8])[i % 8])
}

/// The next `k` outputs of the software generator from state `x`.
pub open spec fn stream_words(x: u64, k: nat) -> Seq<u64>
    decreases k,
{
    if k == 0 {
        seq![]
    } else {
        seq![xorshift(x)] + stream_words(xorshift(x), (k - 1) as nat)
    }
}

/// The software generator's state after `k` outputs from state `x`.
pub open spec fn advance(x: u64, k: nat) -> u64
    decreases k,
{
    if k == 0 {
        x
    } else {
        advance(xorshift(x), (k - 1) as nat)
    }
}

proof fn lemma_stream_words_len(x: u64, k: nat)
    ensures
        stream_words(x, k).len() == k,
    decreases k,
{
    if k > 0 {
        lemma_stream_words_len(xorshift(x), (k - 1) as nat);
    }
}

proof fn lemma_stream_step(x: u64, k: nat)
    ensures
        stream_words(x, k + 1) == stream_words(x, k).push(xorshift(advance(x, k))),
        advance(x, k + 1) == xorshift(advance(x, k)),
    decreases k,
{
    reveal_with_fuel(stream_words, 2);
    reveal_with_fuel(advance, 2);
    if k > 0 {
        let y = xorshift(x);
        let k1 = (k - 1) as nat;
        lemma_stream_step(y, k1);
        assert(k1 + 1 == k);
        assert(stream_words(x, k + 1) == seq![y] + stream_words(y, k));
        assert(stream_words(x, k) == seq![y] + stream_words(y, k1));
        assert(advance(x, k) == advance(y, k1));
        assert(advance(x, k + 1) == advance(y, k));
        assert(stream_words(x, k + 1) =~= stream_words(x, k).push(xorshift(advance(x, k))));
    } else {
        assert(stream_words(x, 1) =~= seq![xorshift(x)]);
        assert(stream_words(x, 0) =~= Seq::<u64>::empty());
        assert(stream_words(x, k + 1) =~= stream_words(x, k).push(xorshift(advance(x, k))));
    }
}

proof fn lemma_stream_as_words(x: u64, n: nat)
    ensures
        stream_bytes(x, n) == word_bytes(stream_words(x, (n + 7) / 8), n),
        stream_state(x, n) == advance(x, (n + 7) / 8),
    decreases n,
{
    lemma_auto_spec_u64_to_from_le_bytes();
    if n > 0 {
        let c: nat = if n < 8 { n } else { 8 };
        let rest = (n - c) as nat;
        lemma_stream_as_words(xorshift(x), rest);
        let k = (n + 7) / 8;
        assert(k >= 1);
        assert((k - 1) as nat == (rest + 7) / 8);
        let ws = stream_words(x, k);
        let tail = stream_words(xorshift(x), (k - 1) as nat);
        assert(ws =~= seq![xorshift(x)] + tail);
        let head = spec_u64_to_le_bytes(xorshift(x)).take(c as int);
        assert(stream_bytes(x, n) == head + stream_bytes(xorshift(x), rest));
        assert forall|i: int| 0 <= i < n implies #[trigger] (head + word_bytes(tail, rest))[i]
            == word_bytes(ws, n)[i] by {
            assert(head.len() == c);
            if i < c {
                assert(i / 8 == 0);
                assert(i % 8 == i);
                assert(ws[0] == xorshift(x));
                assert((head + word_bytes(tail, rest))[i] == head[i]);
            } else {
                assert(c == 8);
                assert((i - 8) / 8 == i / 8 - 1);
                assert((i - 8) % 8 == i % 8);
                lemma_stream_words_len(xorshift(x), (k - 1) as nat);
                assert(i / 8 < k);
                assert(ws[i / 8] == tail[i / 8 - 1]);
                assert((head + word_bytes(tail, rest))[i] == word_bytes(tail, rest)[i - 8]);
            }
        }
        assert(head + word_bytes(tail, rest) =~= word_bytes(ws, n));
    }
}

/// Write into `buffer` the little-endian bytes of `words`, one word after another: byte `i`
/// is byte `i % 8` of word `i / 8`.
pub fn write_words(buffer: &mut [u8], words: &[u64])
    requires
        old(buffer)@.len() <= words@.len() * 8,
    ensures
        final(buffer)@ == word_bytes(words@, old(buffer)@.len()),
{
    let len = buffer.len();
    let mut k: usize = 0;
    let mut i: usize = 0;
    while i < len
        invariant
            len == buffer@.len() == old(buffer)@.len(),
            len <= words@.len() * 8,
            i == k * 8 || i == len,
            i <= len,
            forall|j: int| 0 <= j < i ==> #[trigger] buffer@[j] == spec_u64_to_le_bytes(words@[j / 8])[j % 8],
        decreases len - i,
    {
        assert(k < words@.len()) by (nonlinear_arith)
            requires
                i == k * 8,
                i < len,
                len <= words@.len() * 8,
        ;
        let bytes = u64_to_le_bytes(words[k]);
        proof {
            lemma_auto_spec_u64_to_from_le_bytes();
        }
        let remaining = len - i;
        let to_copy: usize = if remaining < 8 { remaining } else { 8 };
        let mut j: usize = 0;
        while j < to_copy
            invariant
                j <= to_copy <= 8,
                i + to_copy <= len == buffer@.len(),
                i == k * 8,
                bytes@ == spec_u64_to_le_bytes(words@[k as int]),
                bytes@.len() == 8,
                forall|m: int| 0 <= m < i ==> #[trigger] buffer@[m] == spec_u64_to_le_bytes(words@[m / 8])[m % 8],
                forall|m: int| i <= m < i + j ==> #[trigger] buffer@[m] == spec_u64_to_le_bytes(words@[m / 8])[m % 8],
            decreases to_copy - j,
        {
            buffer[i + j] = bytes[j];
            proof {
                let m = i + j;
                assert(m / 8 == k && m % 8 == j) by (nonlinear_arith)
                    requires
                        m == k * 8 + j,
                        0 <= j < 8,
                ;
            }
            j = j + 1;
        }
        i = i + to_copy;
        k = k + 1;
    }
    assert(buffer@ =~= word_bytes(words@, len as nat));
}

/// Fill `buffer` with random bytes: the little-endian bytes of one random `u64` for each
/// eight bytes, drawn in order. With the software generator the bytes are exactly its
/// output stream.
pub fn fill_bytes(rng: &mut Rng, buffer: &mut [u8])
    ensures
        final(buffer)@.len() == old(buffer)@.len(),
        final(rng).hardware() == old(rng).hardware(),
        exists|words: Seq<u64>| {
            &&& words.len() == (old(buffer)@.len() + 7) / 8
            &&& final(buffer)@ == word_bytes(words, old(buffer)@.len())
        },
        !old(rng).hardware() ==> {
            &&& final(buffer)@ == stream_bytes(old(rng).state(), old(buffer)@.len())
            &&& final(rng).state() == stream_state(old(rng).state(), old(buffer)@.len())
        },
{
    let len = buffer.len();
    let count = len / 8 + if len % 8 == 0 { 0 } else { 1 };
    assert(count == (len + 7) / 8);
    let ghost s0 = old(rng).state();
    let mut words: Vec<u64> = Vec::new();
    let mut k: usize = 0;
    while k < count
        invariant
            k <= count,
            words@.len() == k,
            rng.hardware() == old(rng).hardware(),
            !rng.hardware() ==> words@ == stream_words(s0, k as nat) && rng.state() == advance(s0, k as nat),
        decreases count - k,
    {
        let ghost st = rng.state();
        let w = random_u64(rng);
        proof {
            if !rng.hardware() {
                lemma_stream_step(s0, k as nat);
            }
        }
        words.push(w);
        k = k + 1;
    }
    write_words(buffer, words.as_slice());
    proof {
        lemma_stream_as_words(s0, len as nat);
    }
}

} // verus!
