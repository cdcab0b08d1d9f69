use vstd::prelude::*;

verus! {

/// The characters that have the Unicode `White_Space` property, which is what
/// `char::is_whitespace` tests: U+0009..=U+000D, U+0020, U+0085, U+00A0, U+1680,
/// U+2000..=U+200A, U+2028, U+2029, U+202F, U+205F and U+3000.
pub open spec fn is_white_space(c: char) -> bool {
    let n = c as int;
    ||| 0x9 <= n <= 0xd
    ||| n == 0x20
    ||| n == 0x85
    ||| n == 0xa0
    ||| n == 0x1680
    ||| 0x2000 <= n <= 0x200a
    ||| n == 0x2028
    ||| n == 0x2029
    ||| n == 0x202f
    ||| n == 0x205f
    ||| n == 0x3000
}

/// Every character of `s` is white space (true of the empty string).
pub open spec fn all_white_space(s: Seq<char>) -> bool {
    forall|i: int| 0 <= i < s.len() ==> is_white_space(#[trigger] s[i])
}

/// Returns true if `c` has the Unicode `White_Space` property.
pub fn char_is_whitespace(c: char) -> (b: bool)
    ensures
        b == is_white_space(c),
{
    let n = c as u32;
    (0x9 <= n && n <= 0xd) || n == 0x20 || n == 0x85 || n == 0xa0 || n == 0x1680 || (0x2000 <= n
        && n <= 0x200a) || n == 0x2028 || n == 0x2029 || n == 0x202f || n == 0x205f || n == 0x3000
}

/// Returns true if every character of `s` is white space.
pub fn is_whitespace(s: &str) -> (b: bool)
    ensures
        b == all_white_space(s@),
{
    let mut all = true;
    for c in it: s.chars()
        invariant
            it.seq() == s@,
            all == (forall|j: int| 0 <= j < it.index() ==> is_white_space(#[trigger] s@[j])),
    {
        all = all && char_is_whitespace(c);
    }
    all
}

/// The glyph at `i` of a wrapped line is drawn in the nick's colour: only on the line
/// that starts with the nick, and only up to and including its first white-space glyph.
pub open spec fn in_nick_section(substrs: Seq<Seq<char>>, is_last: bool, i: int) -> bool {
    is_last && forall|j: int| 0 <= j < i ==> !all_white_space(#[trigger] substrs[j])
}

/// On the nick's line, a glyph is in the nick section exactly when no earlier glyph is
/// all white space, however long the nick is: the section ends with the first
/// white-space glyph, which it includes. No other line has a nick section.
pub proof fn lemma_nick_section(substrs: Seq<Seq<char>>)
    ensures
        forall|i: int|
            #[trigger] in_nick_section(substrs, true, i) <==> (forall|j: int|
                0 <= j < i ==> !all_white_space(#[trigger] substrs[j])),
        forall|i: int| !#[trigger] in_nick_section(substrs, false, i),
        forall|i: int, j: int|
            0 <= j < i && all_white_space(#[trigger] substrs[j]) ==> !#[trigger] in_nick_section(
                substrs,
                true,
                i,
            ),
        forall|i: int|
            0 <= i < substrs.len() && in_nick_section(substrs, true, i) && !all_white_space(substrs[i])
                ==> #[trigger] in_nick_section(substrs, true, i + 1),
{
}

/// The colour of each glyph of a wrapped line, given the text of each glyph.
/// `is_last` marks the line that holds the nick, which is coloured up to and
/// including its first white-space glyph; every other glyph takes `text_color`.
pub fn line_glyph_colors<C: Copy>(
    glyph_substrs: &Vec<String>,
    is_last: bool,
    nick_color: C,
    text_color: C,
) -> (colors: Vec<C>)
    ensures
        colors@.len() == glyph_substrs@.len(),
        forall|i: int|
            #![trigger colors@[i]]
            0 <= i < colors@.len() ==> colors@[i] == if in_nick_section(
                glyph_substrs@.map_values(|g: String| g@),
                is_last,
                i,
            ) {
                nick_color
            } else {
                text_color
            },
        forall|i: int|
            #![trigger colors@[i]]
            0 <= i < colors@.len() && is_last && (forall|j: int|
                0 <= j < i ==> !all_white_space(#[trigger] glyph_substrs@[j]@)) ==> colors@[i]
                == nick_color,
        forall|i: int|
            #![trigger colors@[i]]
            0 <= i < colors@.len() && !is_last ==> colors@[i] == text_color,
        forall|i: int, j: int|
            0 <= j < i < colors@.len() && all_white_space(#[trigger] glyph_substrs@[j]@) ==> #[trigger] colors@[i]
                == text_color,
{
    let ghost substrs = glyph_substrs@.map_values(|g: String| g@);
    // Section 0 is the nickname, section 1 the message itself.
    let mut section: u8 = 1;
    if is_last {
        section = 0;
    }
    let mut colors: Vec<C> = Vec::new();
    let n = glyph_substrs.len();
    for i in 0..n
        invariant
            n == glyph_substrs@.len(),
            substrs == glyph_substrs@.map_values(|g: String| g@),
            colors@.len() == i,
            section <= 1,
            (section == 0) == in_nick_section(substrs, is_last, i as int),
            forall|k: int|
                #![trigger colors@[k]]
                0 <= k < i ==> colors@[k] == if in_nick_section(substrs, is_last, k) {
                    nick_color
                } else {
                    text_color
                },
    {
        let color = if section == 0 {
            nick_color
        } else {
            text_color
        };
        colors.push(color);
        let ws = is_whitespace(glyph_substrs[i].as_str());
        if is_last && section < 1 && ws {
            section += 1;
        }
        proof {
            assert(substrs[i as int] == glyph_substrs@[i as int]@);
            if section == 0 {
                assert forall|j: int| 0 <= j < i + 1 implies !all_white_space(#[trigger] substrs[j]) by {
                    if j < i {
                        assert(!all_white_space(substrs[j]));
                    }
                }
            } else if is_last {
                assert(!in_nick_section(substrs, is_last, i + 1)) by {
                    if in_nick_section(substrs, is_last, i as int) {
                        assert(all_white_space(substrs[i as int]));
                    } else {
                        let j = choose|j: int| 0 <= j < i && all_white_space(#[trigger] substrs[j]);
                        assert(0 <= j < i + 1 && all_white_space(substrs[j]));
                    }
                }
            }
        }
    }
    proof {
        lemma_nick_section(substrs);
        assert forall|i: int|
            #![trigger colors@[i]]
            0 <= i < colors@.len() && is_last && (forall|j: int|
                0 <= j < i ==> !all_white_space(#[trigger] glyph_substrs@[j]@)) implies colors@[i]
            == nick_color by {
            assert forall|j: int| 0 <= j < i implies !all_white_space(#[trigger] substrs[j]) by {
                assert(substrs[j] == glyph_substrs@[j]@);
            }
        }
        assert forall|i: int, j: int|
            0 <= j < i < colors@.len() && all_white_space(#[trigger] glyph_substrs@[j]@) implies #[trigger] colors@[i]
            == text_color by {
            assert(substrs[j] == glyph_substrs@[j]@);
            assert(!in_nick_section(substrs, is_last, i));
        }
    }
    colors
}

} // verus!
