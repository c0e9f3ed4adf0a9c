//! Tagging scheme of the registry.
//!
//! A resource is displayed as the tag `<namespace>-<name>` and addressed by a
//! numeric selector derived from the hashes of its namespace and its name.
//! Namespaces and names are restricted to letters, digits and underscores, so
//! the `-` separator of a tag is never ambiguous.
//!
//! The two cryptographic primitives (the byte-array hash and the two-to-one
//! combination) are outside collaborators; the registry only requires them to
//! be deterministic and to be used consistently on both sides of a build.

use vstd::prelude::*;

use convert_case::{Case, Casing};

verus! {

/// Characters allowed in a namespace or a resource name.
pub open spec fn is_valid_name_char(c: char) -> bool {
    ('a' <= c && c <= 'z') || ('A' <= c && c <= 'Z') || ('0' <= c && c <= '9') || c == '_'
}

/// A valid namespace or resource name: non-empty, only letters, digits and
/// underscores.
pub open spec fn name_valid(s: Seq<char>) -> bool {
    s.len() > 0 && forall|i: int| 0 <= i < s.len() ==> is_valid_name_char(#[trigger] s[i])
}

/// Checks that `s` is a valid namespace or resource name.
pub fn is_name_valid(s: &str) -> (r: bool)
    ensures
        r == name_valid(s@),
{
    let n = s.unicode_len();
    if n == 0 {
        return false;
    }
    let mut i: usize = 0;
    while i < n
        invariant
            n == s@.len(),
            0 < n,
            i <= n,
            forall|j: int| 0 <= j < i ==> is_valid_name_char(#[trigger] s@[j]),
        decreases n - i,
    {
        let c = s.get_char(i);
        let ok = ('a' <= c && c <= 'z') || ('A' <= c && c <= 'Z') || ('0' <= c && c <= '9') || c
            == '_';
        if !ok {
            return false;
        }
        i = i + 1;
    }
    true
}

/// The tag of a resource: its namespace and its name joined by `-`.
pub open spec fn tag_of(namespace: Seq<char>, name: Seq<char>) -> Seq<char> {
    namespace + seq!['-'] + name
}

/// Builds the display tag of a resource from its namespace and its name.
pub fn get_tag(namespace: &str, name: &str) -> (r: String)
    ensures
        r@ == tag_of(namespace@, name@),
{
    proof {
        reveal_strlit("-");
    }
    let mut t = String::from_str(namespace);
    t.append("-");
    t.append(name);
    proof {
        assert(t@ =~= tag_of(namespace@, name@));
    }
    t
}

/// The file name of a persisted resource is its tag unchanged: the `-`
/// separator is already safe for file systems and both tag components are
/// restricted to safe characters.
pub open spec fn filename_of_tag(tag: Seq<char>) -> Seq<char> {
    tag
}

/// Normalizes a tag for use as a file name.
pub fn get_filename_from_tag(tag: &str) -> (r: String)
    ensures
        r@ == filename_of_tag(tag@),
{
    String::from_str(tag)
}

/// For two valid namespaces, the tag determines namespace and name: the first
/// `-` of a tag is always the separator, because a valid namespace cannot
/// contain `-`.
pub proof fn lemma_tag_injective(ns1: Seq<char>, n1: Seq<char>, ns2: Seq<char>, n2: Seq<char>)
    requires
        name_valid(ns1),
        name_valid(ns2),
        tag_of(ns1, n1) == tag_of(ns2, n2),
    ensures
        ns1 == ns2,
        n1 == n2,
{
    let t1 = tag_of(ns1, n1);
    let t2 = tag_of(ns2, n2);
    assert(t1[ns1.len() as int] == '-');
    assert(t2[ns2.len() as int] == '-');
    if ns1.len() < ns2.len() {
        assert(t2[ns1.len() as int] == ns2[ns1.len() as int]);
        assert(is_valid_name_char(ns2[ns1.len() as int]));
        assert(false);
    }
    if ns2.len() < ns1.len() {
        assert(t1[ns2.len() as int] == ns1[ns2.len() as int]);
        assert(is_valid_name_char(ns1[ns2.len() as int]));
        assert(false);
    }
    assert forall|i: int| 0 <= i < ns1.len() implies ns1[i] == ns2[i] by {
        assert(t1[i] == ns1[i]);
        assert(t2[i] == ns2[i]);
    }
    assert(ns1 =~= ns2);
    assert(t1.len() == ns1.len() + 1 + n1.len());
    assert(t2.len() == ns2.len() + 1 + n2.len());
    assert(n1.len() == n2.len());
    assert forall|i: int| 0 <= i < n1.len() implies n1[i] == n2[i] by {
        assert(t1[ns1.len() + 1 + i] == n1[i]);
        assert(t2[ns2.len() + 1 + i] == n2[i]);
    }
    assert(n1 =~= n2);
}

/// Result of the byte-array hash primitive on a string, rendered as a
/// fixed-width hex literal. Deterministic in the string alone.
pub uninterp spec fn bytearray_hash_of(s: Seq<char>) -> Seq<char>;

/// Relies on `starknet_core::utils::starknet_keccak`: a Keccak-256 of the
/// UTF-8 encoding of the string with the six most significant bits cleared,
/// a deterministic function of its input alone. The field element is rendered
/// as a `0x`-prefixed, zero-padded, 64-digit hex literal.
#[verifier::external_body]
pub fn compute_bytearray_hash(s: &str) -> (r: String)
    ensures
        r@ == bytearray_hash_of(s@),
{
    format!("{:#066x}", starknet_core::utils::starknet_keccak(s.as_bytes()))
}

/// Result of combining a namespace hash and a name hash into a selector.
/// Deterministic in the two hex-rendered hashes alone; order matters.
pub uninterp spec fn selector_combine_of(namespace_hash: Seq<char>, name_hash: Seq<char>) -> Seq<
    char,
>;

/// Relies on `starknet_crypto::poseidon_hash`: the Starknet Poseidon hash of
/// two field elements, deterministic in its arguments alone. The arguments
/// are hex renderings as produced by [`compute_bytearray_hash`]; one that
/// does not parse back into a field element yields the empty string, still
/// deterministically.
#[verifier::external_body]
fn combine_hashes(namespace_hash: &str, name_hash: &str) -> (r: String)
    ensures
        r@ == selector_combine_of(namespace_hash@, name_hash@),
{
    let a = match starknet_core::types::Felt::from_hex(namespace_hash) {
        Ok(f) => f,
        Err(_) => return String::new(),
    };
    let b = match starknet_core::types::Felt::from_hex(name_hash) {
        Ok(f) => f,
        Err(_) => return String::new(),
    };
    format!("{:#066x}", starknet_crypto::poseidon_hash(a, b))
}

/// The selector of a resource: the combination of the hashes of its
/// namespace and its name, namespace first.
pub open spec fn selector_of(namespace: Seq<char>, name: Seq<char>) -> Seq<char> {
    selector_combine_of(bytearray_hash_of(namespace), bytearray_hash_of(name))
}

/// Computes the numeric selector of a resource from its namespace and its
/// name, as a hex literal.
pub fn compute_selector_from_names(namespace: &str, name: &str) -> (r: String)
    ensures
        r@ == selector_of(namespace@, name@),
{
    let nsh = compute_bytearray_hash(namespace);
    let nh = compute_bytearray_hash(name);
    combine_hashes(nsh.as_str(), nh.as_str())
}

/// Result of the case-folding primitive that rewrites an identifier in snake
/// case. Deterministic in the characters alone.
pub uninterp spec fn snake_of(s: Seq<char>) -> Seq<char>;

/// Relies on `convert_case`'s `Casing::to_case` with `Case::Snake`: a pure
/// rewriting of the characters of its input alone.
#[verifier::external_body]
pub fn to_snake_case(s: &str) -> (r: String)
    ensures
        r@ == snake_of(s@),
{
    s.to_case(Case::Snake)
}

/// Result of the content-hash primitive on the bytes of a compiled class,
/// rendered as a fixed-width hex literal. Deterministic in the bytes alone.
pub uninterp spec fn class_hash_of(bytes: Seq<u8>) -> Seq<char>;

/// Relies on `starknet_core::utils::starknet_keccak`, here used as the
/// content-hash primitive that fingerprints a compiled class: a deterministic
/// function of the class bytes alone, rendered as a hex literal.
#[verifier::external_body]
pub fn compute_class_hash_of_contract_class(class: &Vec<u8>) -> (r: String)
    ensures
        r@ == class_hash_of(class@),
{
    format!("{:#066x}", starknet_core::utils::starknet_keccak(class.as_slice()))
}

} // verus!
