//! What the page overview bar shows of each page: the colours of its tags.
use vstd::prelude::*;

verus! {

/// Tags 0 to 9 have a colour of their own on the overview bar.
pub const TAG_COLOUR_COUNT: u16 = 10;

/// Bit `bit` of a page's tags is set.
pub open spec fn has_tag_bit(tags: u16, bit: u16) -> bool {
    tags & (1u16 << bit) != 0
}

/// The coloured tags among the first `n`, in increasing order.
pub open spec fn set_tags_below(tags: u16, n: nat) -> Seq<usize>
    decreases n,
{
    if n == 0 {
        Seq::empty()
    } else {
        let before = set_tags_below(tags, (n - 1) as nat);
        if n - 1 < 16 && has_tag_bit(tags, (n - 1) as u16) {
            before.push((n - 1) as usize)
        } else {
            before
        }
    }
}

/// The colours to draw for a page with the given tags: each of the tags 0 to 9
/// that is set, in increasing order.
pub fn tag_colours(tags: u16) -> (r: Vec<usize>)
    ensures
        r@ == set_tags_below(tags, TAG_COLOUR_COUNT as nat),
{
    let mut colours: Vec<usize> = Vec::new();
    let mut bit: u16 = 0;
    while bit < TAG_COLOUR_COUNT
        invariant
            bit <= TAG_COLOUR_COUNT,
            colours@ == set_tags_below(tags, bit as nat),
        decreases TAG_COLOUR_COUNT - bit,
    {
        if tags & (1u16 << bit) != 0 {
            colours.push(bit as usize);
        }
        bit = bit + 1;
    }
    colours
}

} // verus!
