//! Icons as delivered through the window icon property: a flat sequence of
//! 32-bit words holding `width, height` headers followed by `width * height`
//! ARGB pixels, possibly several icons back to back.  The core parses that
//! sequence, picks the icon closest to the fixed display size, and can
//! premultiply its pixels for rendering.

use vstd::prelude::*;

use crate::config::ICON_SIZE;

verus! {

/// One decoded icon: a `width` x `height` grid of ARGB pixels.
pub struct Icon {
    pub width: u32,
    pub height: u32,
    pub data: Vec<u32>,
}

/// The mathematical value of an [`Icon`].
pub struct IconView {
    pub width: u32,
    pub height: u32,
    pub data: Seq<u32>,
}

impl View for Icon {
    type V = IconView;

    open spec fn view(&self) -> IconView {
        IconView { width: self.width, height: self.height, data: self.data@ }
    }
}

impl IconView {
    /// The pixel data matches the declared dimensions.
    pub open spec fn wf(self) -> bool {
        self.data.len() == self.width * self.height
    }

    /// The icon already has the fixed display size.
    pub open spec fn is_display_size(self) -> bool {
        self.width == ICON_SIZE as u32 && self.height == ICON_SIZE as u32
    }
}

/// The mathematical values of a sequence of icons.
pub open spec fn icon_views(icons: Seq<Icon>) -> Seq<IconView> {
    Seq::new(icons.len(), |i: int| icons[i]@)
}

/// `a` is preferred over `b`: strictly closer to the display size in both
/// dimensions, or closer in one dimension while being square.
pub open spec fn is_better_than_spec(a: IconView, b: IconView) -> bool {
    let a_delta_width = ICON_SIZE - a.width as int;
    let a_delta_height = ICON_SIZE - a.height as int;
    let b_delta_width = ICON_SIZE - b.width as int;
    let b_delta_height = ICON_SIZE - b.height as int;
    let better_by_width = a_delta_width < b_delta_width;
    let better_by_height = a_delta_height < b_delta_height;
    let is_square = a.width == a.height;
    (better_by_width && better_by_height) || ((better_by_width || better_by_height) && is_square)
}

impl Icon {
    pub fn is_better_than(&self, other: &Icon) -> (r: bool)
        requires
            self.width <= i32::MAX,
            self.height <= i32::MAX,
            other.width <= i32::MAX,
            other.height <= i32::MAX,
        ensures
            r == is_better_than_spec(self@, other@),
    {
        let self_delta_width = ICON_SIZE as i64 - self.width as i64;
        let self_delta_height = ICON_SIZE as i64 - self.height as i64;

        let other_delta_width = ICON_SIZE as i64 - other.width as i64;
        let other_delta_height = ICON_SIZE as i64 - other.height as i64;

        let better_by_width = self_delta_width < other_delta_width;
        let better_by_height = self_delta_height < other_delta_height;
        let is_square = self.width == self.height;

        let totally_better = better_by_width && better_by_height;
        let somewhat_better = better_by_width || better_by_height;

        totally_better || (somewhat_better && is_square)
    }
}

/// Index of the icon the scan from `i` onward settles on, with `best` the
/// index preferred so far: an icon of exactly the display size wins
/// immediately; otherwise each icon preferred over the current best
/// replaces it.
pub open spec fn best_icon_from(icons: Seq<IconView>, i: int, best: int) -> int
    decreases icons.len() - i,
{
    if i < 0 || i >= icons.len() {
        best
    } else if icons[i].is_display_size() {
        i
    } else if is_better_than_spec(icons[i], icons[best]) {
        best_icon_from(icons, i + 1, i)
    } else {
        best_icon_from(icons, i + 1, best)
    }
}

/// The index [`find_most_appropriate_icon`] returns: `None` only for an
/// empty sequence, the first icon if it has the display size, and otherwise
/// the result of the scan starting from the second icon.
pub open spec fn find_most_appropriate_icon_spec(icons: Seq<IconView>) -> Option<int> {
    if icons.len() == 0 {
        None
    } else if icons[0].is_display_size() {
        Some(0)
    } else {
        Some(best_icon_from(icons, 1, 0))
    }
}

proof fn lemma_best_icon_from_in_range(icons: Seq<IconView>, i: int, best: int)
    requires
        0 <= best < icons.len(),
        0 <= i,
    ensures
        0 <= best_icon_from(icons, i, best) < icons.len(),
    decreases icons.len() - i,
{
    if i < icons.len() && !icons[i].is_display_size() {
        if is_better_than_spec(icons[i], icons[best]) {
            lemma_best_icon_from_in_range(icons, i + 1, i);
        } else {
            lemma_best_icon_from_in_range(icons, i + 1, best);
        }
    }
}

/// Index of the icon closest to the display size, `None` only when there is
/// no icon at all.
pub fn find_most_appropriate_icon(icons: &Vec<Icon>) -> (r: Option<usize>)
    requires
        forall|i: int|
            0 <= i < icons@.len() ==> (#[trigger] icons@[i]).width <= i32::MAX
                && icons@[i].height <= i32::MAX,
    ensures
        match r {
            Some(i) => i < icons@.len() && find_most_appropriate_icon_spec(
                icon_views(icons@),
            ) == Some(i as int),
            None => icons@.len() == 0,
        },
{
    let ghost views = icon_views(icons@);

    if icons.len() == 0 {
        return None;
    }

    if icons[0].width == ICON_SIZE as u32 && icons[0].height == ICON_SIZE as u32 {
        return Some(0);
    }

    let mut best: usize = 0;
    let mut i: usize = 1;

    while i < icons.len()
        invariant
            1 <= i <= icons@.len(),
            0 <= best < i,
            views == icon_views(icons@),
            views.len() == icons@.len(),
            forall|k: int|
                0 <= k < icons@.len() ==> (#[trigger] icons@[k]).width <= i32::MAX
                    && icons@[k].height <= i32::MAX,
            forall|k: int| 0 <= k < icons@.len() ==> views[k] == icons@[k]@,
            !views[0].is_display_size(),
            best_icon_from(views, i as int, best as int) == best_icon_from(views, 1, 0),
        decreases icons@.len() - i,
    {
        if icons[i].width == ICON_SIZE as u32 && icons[i].height == ICON_SIZE as u32 {
            assert(best_icon_from(views, i as int, best as int) == i);
            return Some(i);
        }

        if icons[i].is_better_than(&icons[best]) {
            best = i;
        }

        i = i + 1;
    }

    proof {
        lemma_best_icon_from_in_range(views, 1, 0);
    }

    Some(best)
}

/// The result of parsing the icon property from word `0`: `None` when a
/// header or a pixel block is cut short, otherwise every icon in order.
pub open spec fn parse_icons_from(words: Seq<u32>) -> Option<Seq<IconView>>
    decreases words.len(),
{
    if words.len() < 2 {
        None
    } else {
        let width = words[0];
        let height = words[1];
        let count = width * height;
        if count > words.len() - 2 {
            None
        } else {
            let icon = IconView { width, height, data: words.subrange(2, 2 + count) };
            let rest = words.subrange(2 + count, words.len() as int);
            if rest.len() == 0 {
                Some(seq![icon])
            } else {
                match parse_icons_from(rest) {
                    None => None,
                    Some(tail) => Some(seq![icon] + tail),
                }
            }
        }
    }
}

/// What [`parse_icons`] returns: an empty property carries no icon, and is
/// not a parse error in the sense above.
pub open spec fn parse_icons_spec(words: Seq<u32>) -> Option<Seq<IconView>> {
    if words.len() == 0 {
        None
    } else {
        parse_icons_from(words)
    }
}

/// Decode the icon property: each icon is a `width, height` header followed
/// by `width * height` ARGB pixel words.
pub fn parse_icons(words: &Vec<u32>) -> (r: Option<Vec<Icon>>)
    ensures
        match r {
            Some(icons) => {
                &&& parse_icons_spec(words@) == Some(icon_views(icons@))
                &&& forall|i: int| 0 <= i < icons@.len() ==> (#[trigger] icons@[i])@.wf()
            },
            None => parse_icons_spec(words@) is None,
        },
{
    if words.len() == 0 {
        return None;
    }

    let mut icons: Vec<Icon> = Vec::new();
    let mut pos: usize = 0;

    proof {
        assert(words@.subrange(0 as int, words@.len() as int) =~= words@);
        if parse_icons_from(words@) is Some {
            assert(icon_views(icons@) + parse_icons_from(words@)->Some_0 =~= parse_icons_from(
                words@,
            )->Some_0);
        }
    }

    loop
        invariant
            pos < words@.len(),
            parse_icons_from(words@) is Some <==> parse_icons_from(
                words@.subrange(pos as int, words@.len() as int),
            ) is Some,
            parse_icons_from(words@) is Some ==> parse_icons_from(words@) == Some(
                icon_views(icons@) + parse_icons_from(
                    words@.subrange(pos as int, words@.len() as int),
                )->Some_0,
            ),
            forall|i: int| 0 <= i < icons@.len() ==> (#[trigger] icons@[i])@.wf(),
        decreases words@.len() - pos,
    {
        let ghost suffix = words@.subrange(pos as int, words@.len() as int);
        proof {
            assert(words@.subrange(0 as int, words@.len() as int) =~= words@);
        }
        let remaining = words.len() - pos;

        if remaining < 2 {
            return None;
        }

        let width = words[pos];
        let height = words[pos + 1];
        let wide = width as u64;
        let high = height as u64;
        proof {
            assert(wide * high <= 0xffff_ffffu64 * 0xffff_ffffu64) by (nonlinear_arith)
                requires
                    wide <= 0xffff_ffffu64,
                    high <= 0xffff_ffffu64,
            ;
        }
        let count64 = wide * high;

        if count64 > (remaining - 2) as u64 {
            return None;
        }

        let count = count64 as usize;
        proof {
            assert(count64 <= (remaining - 2) as u64);
            assert(count == count64);
            assert(pos + 2 + count <= words@.len());
        }
        let mut data: Vec<u32> = Vec::new();
        let mut k: usize = 0;

        while k < count
            invariant
                words@.len() <= usize::MAX,
                pos + 2 + count <= words@.len(),
                k <= count,
                data@ == words@.subrange(pos + 2, pos + 2 + k),
            decreases count - k,
        {
            data.push(words[pos + 2 + k]);
            assert(data@ =~= words@.subrange(pos + 2, pos + 2 + (k + 1)));
            k = k + 1;
        }

        let icon = Icon { width, height, data };

        proof {
            assert(suffix.len() == words@.len() - pos);
            assert(suffix[0] == width && suffix[1] == height);
            assert(icon@.data =~= suffix.subrange(2, 2 + count64 as int));
        }

        let ghost done_before = icon_views(icons@);
        icons.push(icon);
        proof {
            assert(icon_views(icons@) =~= done_before.push(icon@));
        }
        pos = pos + 2 + count;

        let ghost rest = words@.subrange(pos as int, words@.len() as int);
        proof {
            assert(rest =~= suffix.subrange(2 + count64 as int, suffix.len() as int));
        }

        if pos == words.len() {
            proof {
                assert(rest.len() == 0);
                assert(parse_icons_from(suffix) == Some(seq![icon@]));
                assert(done_before + seq![icon@] =~= icon_views(icons@));
            }
            return Some(icons);
        }

        proof {
            assert(rest.len() > 0);
            assert(parse_icons_from(suffix) == (match parse_icons_from(rest) {
                None => None::<Seq<IconView>>,
                Some(tail) => Some(seq![icon@] + tail),
            }));
            if parse_icons_from(words@) is Some {
                let tail = parse_icons_from(suffix)->Some_0;
                let new_tail = parse_icons_from(rest)->Some_0;
                assert(tail == seq![icon@] + new_tail);
                assert(done_before + tail =~= icon_views(icons@) + new_tail);
            }
        }
    }
}

/// The four premultiplied bytes of one ARGB pixel, in blue, green, red,
/// alpha order.
pub open spec fn premultiplied_pixel_spec(p: u32) -> Seq<u8> {
    let a = (p >> 24) & 0xff;
    let r = (p >> 16) & 0xff;
    let g = (p >> 8) & 0xff;
    let b = p & 0xff;
    seq![((b * a) / 255) as u8, ((g * a) / 255) as u8, ((r * a) / 255) as u8, a as u8]
}

impl Icon {
    /// The icon's pixels as premultiplied blue, green, red, alpha byte
    /// quadruplets, ready for a rendering surface.
    pub fn premultiplied_bytes(&self) -> (r: Vec<u8>)
        ensures
            r@.len() == 4 * self.data@.len(),
            forall|i: int|
                0 <= i < self.data@.len() ==> r@.subrange(4 * i, 4 * i + 4)
                    == premultiplied_pixel_spec(#[trigger] self.data@[i]),
    {
        let mut out: Vec<u8> = Vec::new();
        let mut i: usize = 0;

        while i < self.data.len()
            invariant
                i <= self.data@.len(),
                out@.len() == 4 * i,
                forall|j: int|
                    0 <= j < i ==> out@.subrange(4 * j, 4 * j + 4)
                        == premultiplied_pixel_spec(#[trigger] self.data@[j]),
            decreases self.data@.len() - i,
        {
            let ghost prior = out@;
            let p = self.data[i];
            let a = (p >> 24) & 0xff;
            let red = (p >> 16) & 0xff;
            let g = (p >> 8) & 0xff;
            let b = p & 0xff;

            assert(a <= 255 && red <= 255 && g <= 255 && b <= 255) by (bit_vector)
                requires
                    a == (p >> 24) & 0xff,
                    red == (p >> 16) & 0xff,
                    g == (p >> 8) & 0xff,
                    b == p & 0xff,
            ;
            proof {
                assert(b * a <= 255 * 255 && g * a <= 255 * 255 && red * a <= 255 * 255)
                    by (nonlinear_arith)
                    requires
                        a <= 255,
                        red <= 255,
                        g <= 255,
                        b <= 255,
                ;
            }

            out.push(((b * a) / 255) as u8);
            out.push(((g * a) / 255) as u8);
            out.push(((red * a) / 255) as u8);
            out.push(a as u8);

            proof {
                assert(out@.subrange(4 * i as int, 4 * i as int + 4) =~= premultiplied_pixel_spec(
                    self.data@[i as int],
                ));
                assert(forall|j: int| 0 <= j < i ==> out@.subrange(4 * j, 4 * j + 4)
                    == premultiplied_pixel_spec(#[trigger] self.data@[j])) by {
                    assert forall|j: int| 0 <= j < i implies out@.subrange(4 * j, 4 * j + 4)
                        == premultiplied_pixel_spec(#[trigger] self.data@[j]) by {
                        assert(out@.subrange(4 * j, 4 * j + 4) =~= prior.subrange(
                            4 * j,
                            4 * j + 4,
                        ));
                    }
                };
            }

            i = i + 1;
        }

        out
    }
}

} // verus!
