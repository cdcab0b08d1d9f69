use std::hash::DefaultHasher;
use std::hash::Hash;
use std::hash::Hasher;
use vstd::prelude::*;

verus! {

/// The value that `std::hash::DefaultHasher` gives for a string: a fresh hasher fed
/// the string through `Hash` and then finished.
pub uninterp spec fn default_str_hash(s: Seq<char>) -> u64;

/// Hashes `s` as `Hash for str` does, into a `DefaultHasher` made by `DefaultHasher::new`,
/// and returns `Hasher::finish`. The standard library documents that every
/// `DefaultHasher` made by `new` is the same, so the result depends on the string
/// alone; which value that is (SipHash, with an algorithm the standard library may
/// change between releases) is left unsaid and named `default_str_hash`.
#[verifier::external_body]
fn str_default_hash(s: &str) -> (h: u64)
    ensures
        h == default_str_hash(s@),
{
    let mut hasher = DefaultHasher::new();
    s.hash(&mut hasher);
    hasher.finish()
}

/// The index of the colour picked for a hash among `count` colours.
pub open spec fn color_index(hash: u64, count: nat) -> int {
    (hash as usize) as int % (count as int)
}

/// Picks the colour for a nick whose hash is `hash`.
pub fn select_color_for_hash<C: Copy>(hash: u64, nick_colors: &[C]) -> (color: C)
    requires
        nick_colors@.len() > 0,
    ensures
        color == nick_colors@[color_index(hash, nick_colors@.len())],
        color == nick_colors@[(hash as usize) as int % nick_colors@.len() as int],
{
    let i = hash as usize;
    nick_colors[i % nick_colors.len()]
}

/// Picks a colour for a nick among `nick_colors`, the same one for the same nick.
pub fn select_nick_color<C: Copy>(nick: &str, nick_colors: &[C]) -> (color: C)
    requires
        nick_colors@.len() > 0,
    ensures
        color == nick_colors@[color_index(default_str_hash(nick@), nick_colors@.len())],
        color == nick_colors@[(default_str_hash(nick@) as usize) as int
            % nick_colors@.len() as int],
{
    let hash = str_default_hash(nick);
    select_color_for_hash(hash, nick_colors)
}

/// Whatever the nick, the colour picked for it is one of the colours offered.
pub proof fn lemma_nick_color_offered(nick: Seq<char>, count: nat)
    requires
        count > 0,
    ensures
        0 <= color_index(default_str_hash(nick), count) < count,
{
}

/// Every colour of the palette is picked by some hash: a hash smaller than the number
/// of colours picks the colour at that index, and adding the number of colours to a
/// hash picks the same colour again.
pub proof fn lemma_every_color_picked(count: nat)
    requires
        0 < count <= usize::MAX,
    ensures
        forall|k: int| 0 <= k < count ==> #[trigger] color_index(k as u64, count) == k,
        forall|h: u64|
            (h as int) + (count as int) <= usize::MAX ==> #[trigger] color_index(
                (h + count) as u64,
                count,
            ) == color_index(h, count),
{
    assert forall|k: int| 0 <= k < count implies #[trigger] color_index(k as u64, count) == k by {
        assert(usize::MAX <= u64::MAX);
        assert((k as u64) as int == k);
        assert(((k as u64) as usize) as int == k);
        vstd::arithmetic::div_mod::lemma_small_mod(k as nat, count);
    }
    assert forall|h: u64| (h as int) + (count as int) <= usize::MAX implies #[trigger] color_index(
        (h + count) as u64,
        count,
    ) == color_index(h, count) by {
        assert(((h + count) as u64) as usize == h + count);
        assert((h as usize) == h);
        assert(((h + count) as int) % (count as int) == (h as int) % (count as int)) by {
            vstd::arithmetic::div_mod::lemma_mod_add_multiples_vanish(h as int, count as int);
        }
    }
}

} // verus!
