//! Record keys: the alphabet they are drawn from, how fresh ones are made, and
//! how a vote batch is named after the question set it belongs to.

use vstd::prelude::*;

verus! {

/// Number of characters in a generated key.
pub const KEY_LENGTH: usize = 6;

/// The character that parts a root key from the suffix of a composite key.
pub const SEPARATOR: char = ':';

/// The alphabet of generated keys: ASCII digits and letters.
pub open spec fn is_key_char(c: char) -> bool {
    ('0' <= c && c <= '9') || ('A' <= c && c <= 'Z') || ('a' <= c && c <= 'z')
}

/// A generated key: exactly `KEY_LENGTH` characters of the alphabet.
pub open spec fn is_key(s: Seq<char>) -> bool {
    &&& s.len() == KEY_LENGTH
    &&& forall|i: int| 0 <= i < s.len() ==> is_key_char(#[trigger] s[i])
}

/// `String::push` appends one character at the end of the string.
pub assume_specification[ String::push ](s: &mut String, ch: char)
    ensures
        final(s)@ == old(s)@.push(ch),
;

/// Draws one character with `rand::Rng::sample` from
/// `rand::distributions::Alphanumeric` on the thread-local generator. The
/// distribution yields a byte of `A-Z`, `a-z` or `0-9`; which one is left open.
#[verifier::external_body]
fn sample_key_char() -> (c: char)
    ensures
        is_key_char(c),
{
    char::from(rand::Rng::sample(&mut rand::thread_rng(), rand::distributions::Alphanumeric))
}

/// Makes a fresh random key.
pub fn generate() -> (key: String)
    ensures
        is_key(key@),
{
    let mut key = String::new();
    let mut i: usize = 0;
    while i < KEY_LENGTH
        invariant
            i <= KEY_LENGTH,
            key@.len() == i,
            forall|j: int| 0 <= j < key@.len() ==> is_key_char(#[trigger] key@[j]),
        decreases KEY_LENGTH - i,
    {
        let c = sample_key_char();
        key.push(c);
        i += 1;
    }
    key
}

/// The listing prefix of a root key, as a sequence of characters.
pub open spec fn prefix_of_spec(root: Seq<char>) -> Seq<char> {
    root.push(SEPARATOR)
}

/// The composite key of a root key and a suffix, as a sequence of characters:
/// the listing prefix of the root, then the suffix.
pub open spec fn composite_spec(root: Seq<char>, suffix: Seq<char>) -> Seq<char> {
    prefix_of_spec(root) + suffix
}

/// No character of `s` is the separator.
pub open spec fn separator_free(s: Seq<char>) -> bool {
    forall|i: int| 0 <= i < s.len() ==> #[trigger] s[i] != SEPARATOR
}

/// The prefix under which every record that belongs to `root` is listed.
pub fn prefix_of(root: &str) -> (prefix: String)
    ensures
        prefix@ == prefix_of_spec(root@),
{
    let mut prefix = root.to_owned();
    prefix.push(SEPARATOR);
    prefix
}

/// The key of one vote batch that belongs to `root`.
pub fn composite(root: &str, suffix: &str) -> (key: String)
    ensures
        key@ == composite_spec(root@, suffix@),
{
    let mut key = prefix_of(root);
    key.append(suffix);
    key
}

/// Parts a key at its first separator: the root before it and the suffix
/// after it. A key without a separator is no composite key and has no parts.
pub fn split(key: &str) -> (parts: Option<(String, String)>)
    ensures
        match parts {
            Some((root, suffix)) => separator_free(root@) && key@ == composite_spec(
                root@,
                suffix@,
            ),
            None => separator_free(key@),
        },
{
    let len = key.unicode_len();
    let mut root = String::new();
    let mut i: usize = 0;
    while i < len
        invariant
            i <= len,
            len == key@.len(),
            root@ == key@.take(i as int),
            separator_free(root@),
        decreases len - i,
    {
        let c = key.get_char(i);
        if c == SEPARATOR {
            let mut suffix = String::new();
            let mut j: usize = i + 1;
            while j < len
                invariant
                    i < j <= len,
                    len == key@.len(),
                    suffix@ == key@.subrange(i + 1, j as int),
                decreases len - j,
            {
                suffix.push(key.get_char(j));
                assert(key@.subrange(i + 1, j + 1) =~= key@.subrange(i + 1, j as int).push(
                    key@[j as int],
                ));
                j += 1;
            }
            return Some((root, suffix));
        }
        root.push(c);
        i += 1;
    }
    assert(key@.take(i as int) =~= key@);
    None
}

/// There are keys: six digits make one.
pub proof fn lemma_keys_exist()
    ensures
        exists|key: Seq<char>| is_key(key),
{
    let key = Seq::new(KEY_LENGTH as nat, |i: int| '0');
    assert(is_key(key));
}

/// The separator is outside the alphabet of generated keys.
pub proof fn lemma_key_is_separator_free(key: Seq<char>)
    requires
        is_key(key),
    ensures
        separator_free(key),
{
    assert forall|i: int| 0 <= i < key.len() implies #[trigger] key[i] != SEPARATOR by {
        assert(is_key_char(key[i]));
    }
}

/// A composite key starts with the listing prefix of its root, and so does
/// the listing prefix of the composite key itself.
pub proof fn lemma_composite_under_prefix(root: Seq<char>, suffix: Seq<char>)
    ensures
        prefix_of_spec(root).is_prefix_of(composite_spec(root, suffix)),
        prefix_of_spec(root).is_prefix_of(prefix_of_spec(composite_spec(root, suffix))),
{
}

/// A composite key is listed under the prefix of no root but its own, as long
/// as neither root holds the separator.
pub proof fn lemma_prefix_names_one_root(root: Seq<char>, suffix: Seq<char>, other: Seq<char>)
    requires
        separator_free(root),
        separator_free(other),
        prefix_of_spec(other).is_prefix_of(composite_spec(root, suffix)),
    ensures
        other == root,
{
    // The separator that ends the prefix of `other` meets a character of
    // `root` where `other` is the shorter, and the separator after `root`
    // meets a character of `other` where `other` is the longer.
    let p = prefix_of_spec(other);
    assert(p[other.len() as int] == SEPARATOR);
    if other.len() > root.len() {
        assert(p[root.len() as int] == other[root.len() as int]);
    } else if other.len() == root.len() {
        assert forall|i: int| 0 <= i < root.len() implies other[i] == root[i] by {
            assert(p[i] == other[i]);
        }
    }
}

/// A composite key has one root and one suffix: however it is parted into a
/// root without the separator and a suffix, the parts are the same.
pub proof fn lemma_composite_parts_are_unique(
    root: Seq<char>,
    suffix: Seq<char>,
    other_root: Seq<char>,
    other_suffix: Seq<char>,
)
    requires
        separator_free(root),
        separator_free(other_root),
        composite_spec(root, suffix) == composite_spec(other_root, other_suffix),
    ensures
        root == other_root,
        suffix == other_suffix,
{
    let key = composite_spec(root, suffix);
    lemma_composite_under_prefix(other_root, other_suffix);
    lemma_prefix_names_one_root(root, suffix, other_root);
    assert forall|i: int| 0 <= i < suffix.len() implies suffix[i] == other_suffix[i] by {
        assert(key[root.len() + 1 + i] == suffix[i]);
    }
}

/// A root key is not listed under any listing prefix made from a root
/// without the separator: only composite keys are.
pub proof fn lemma_root_outside_every_prefix(root: Seq<char>, other: Seq<char>)
    requires
        separator_free(root),
    ensures
        !prefix_of_spec(other).is_prefix_of(root),
{
    let p = prefix_of_spec(other);
    if p.is_prefix_of(root) {
        assert(p[other.len() as int] == SEPARATOR);
    }
}

} // verus!
