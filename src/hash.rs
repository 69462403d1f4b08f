//! The graph hash, the public slug of a saved graph, and the random seed.
use vstd::prelude::*;
use vstd::string::StringExecFns;
use crate::text::{chars_of, hex_char, hex_padded, lemma_hex_padded_len, push_hex_padded};

verus! {

/// Number of characters of a graph hash.
pub const HASH_LEN: u32 = 10;

/// Number of characters of a calculator random seed.
pub const SEED_LEN: u32 = 16;

/// Why a supplied graph hash is refused.
#[derive(Debug, PartialEq, Eq, Structural, Clone, Copy)]
pub enum HashError {
    /// It does not have exactly `HASH_LEN` characters.
    Length,
    /// It holds a character that is not an ASCII letter or digit.
    Charset,
}

pub open spec fn is_ascii_alnum(c: char) -> bool {
    ('0' <= c <= '9') || ('a' <= c <= 'z') || ('A' <= c <= 'Z')
}

/// The verdict on a supplied hash: first its length, then its characters.
pub open spec fn hash_check(h: Seq<char>) -> Result<(), HashError> {
    if h.len() != HASH_LEN {
        Err(HashError::Length)
    } else if exists|i: int| 0 <= i < h.len() && !is_ascii_alnum(#[trigger] h[i]) {
        Err(HashError::Charset)
    } else {
        Ok(())
    }
}

/// The `len` leading digits of the 32-digit lowercase hexadecimal form of `n`.
pub open spec fn hex_prefix(n: u128, len: nat) -> Seq<char> {
    hex_padded(n as nat, 32).subrange(0, len as int)
}

/// The hash used when none is supplied, from a random value.
pub open spec fn generated_hash(random: u128) -> Seq<char> {
    hex_prefix(random, HASH_LEN as nat)
}

/// The graph hash: the supplied one, verbatim, when it passes the checks;
/// else the generated one when none is supplied.
pub open spec fn resolved_hash(supplied: Option<Seq<char>>, random: u128) -> Result<Seq<char>, HashError> {
    match supplied {
        Some(h) => match hash_check(h) {
            Ok(()) => Ok(h),
            Err(e) => Err(e),
        },
        None => Ok(generated_hash(random)),
    }
}

/// The characters of a textual result.
pub open spec fn text_result(r: Result<String, HashError>) -> Result<Seq<char>, HashError> {
    match r {
        Ok(s) => Ok(s@),
        Err(e) => Err(e),
    }
}

/// Checks a supplied graph hash.
pub fn validate_hash(hash: &str) -> (r: Result<(), HashError>)
    ensures
        r == hash_check(hash@),
{
    let cs = chars_of(hash);
    if cs.len() != 10 {
        return Err(HashError::Length);
    }
    let mut i: usize = 0;
    while i < cs.len()
        invariant
            cs@ == hash@,
            cs@.len() == HASH_LEN,
            i <= cs@.len(),
            forall|j: int| 0 <= j < i ==> is_ascii_alnum(#[trigger] cs@[j]),
        decreases cs@.len() - i,
    {
        let c = cs[i];
        if !(('0' <= c && c <= '9') || ('a' <= c && c <= 'z') || ('A' <= c && c <= 'Z')) {
            assert(!is_ascii_alnum(hash@[i as int]));
            return Err(HashError::Charset);
        }
        i = i + 1;
    }
    Ok(())
}

/// The `len` leading digits of the 32-digit lowercase hexadecimal form of `n`.
pub fn hex_prefix_of(n: u128, len: u32) -> (r: String)
    requires
        len <= 32,
    ensures
        r@ == hex_prefix(n, len as nat),
{
    let mut m: u128 = n;
    let mut k: u32 = 32;
    proof {
        lemma_hex_padded_len(n as nat, 32);
    }
    while k > len
        invariant
            len <= k <= 32,
            hex_padded(m as nat, k as nat).len() == k,
            hex_padded(m as nat, k as nat).subrange(0, len as int) == hex_prefix(n, len as nat),
        decreases k,
    {
        proof {
            let prev = hex_padded((m / 16) as nat, (k - 1) as nat);
            lemma_hex_padded_len((m / 16) as nat, (k - 1) as nat);
            assert(hex_padded(m as nat, k as nat) == prev.push(hex_char((m % 16) as nat)));
            assert(hex_padded(m as nat, k as nat).subrange(0, len as int) =~= prev.subrange(0, len as int));
        }
        m = m / 16;
        k = k - 1;
    }
    let mut s = String::new();
    push_hex_padded(&mut s, m, len);
    assert(hex_padded(m as nat, k as nat).subrange(0, len as int) =~= hex_padded(m as nat, k as nat));
    assert(s@ =~= hex_prefix(n, len as nat));
    s
}

/// The graph hash from an optional supplied one and a random value.
pub fn resolve_hash(supplied: Option<&str>, random: u128) -> (r: Result<String, HashError>)
    ensures
        match supplied {
            Some(h) => text_result(r) == resolved_hash(Some(h@), random),
            None => text_result(r) == resolved_hash(None, random),
        },
{
    match supplied {
        Some(h) => match validate_hash(h) {
            Ok(()) => Ok(String::from_str(h)),
            Err(e) => Err(e),
        },
        None => Ok(hex_prefix_of(random, HASH_LEN)),
    }
}

/// Relies on `rand::random`: a value drawn from the thread-local generator.
/// Nothing is known of it.
#[verifier::external_body]
fn random_u128() -> (r: u128) {
    rand::random::<u128>()
}

/// A generated hash is accepted by the same checks as a supplied one.
pub proof fn lemma_generated_hash_valid(random: u128)
    ensures
        hash_check(generated_hash(random)) == Ok::<(), HashError>(()),
        resolved_hash(None, random) == Ok::<Seq<char>, HashError>(generated_hash(random)),
{
    lemma_hex_padded_len(random as nat, 32);
    lemma_hex_padded_alnum(random as nat, 32);
    let g = generated_hash(random);
    assert forall|i: int| 0 <= i < g.len() implies is_ascii_alnum(#[trigger] g[i]) by {
        assert(g[i] == hex_padded(random as nat, 32)[i]);
    }
}

proof fn lemma_hex_padded_alnum(n: nat, k: nat)
    ensures
        forall|i: int| 0 <= i < hex_padded(n, k).len() ==> is_ascii_alnum(#[trigger] hex_padded(n, k)[i]),
    decreases k,
{
    if k > 0 {
        lemma_hex_padded_alnum(n / 16, (k - 1) as nat);
        let prev = hex_padded(n / 16, (k - 1) as nat);
        let c = hex_char(n % 16);
        assert(is_ascii_alnum(c));
        assert forall|i: int| 0 <= i < hex_padded(n, k).len() implies is_ascii_alnum(
            #[trigger] hex_padded(n, k)[i],
        ) by {
            if i < prev.len() {
                assert(hex_padded(n, k)[i] == prev[i]);
            }
        }
    }
}

/// The graph hash for this run: the supplied one if it passes the checks,
/// else a freshly generated one of `HASH_LEN` lowercase hexadecimal digits.
pub fn graph_hash(supplied: Option<&str>) -> (r: Result<String, HashError>)
    ensures
        supplied matches Some(h) ==> text_result(r) == resolved_hash(Some(h@), 0),
        supplied is None ==> (r matches Ok(s) && exists|n: u128| s@ == generated_hash(n)),
{
    match supplied {
        Some(_) => resolve_hash(supplied, 0),
        None => {
            let n = random_u128();
            resolve_hash(None, n)
        },
    }
}

/// A fresh calculator random seed of `SEED_LEN` lowercase hexadecimal digits.
pub fn random_seed() -> (r: String)
    ensures
        exists|n: u128| r@ == hex_prefix(n, SEED_LEN as nat),
{
    let n = random_u128();
    hex_prefix_of(n, SEED_LEN)
}

} // verus!
