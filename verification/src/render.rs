//! The glyph atlas: the key a rasterised glyph is cached under, and the
//! shelf packer that places glyph bitmaps in the atlas texture, left to
//! right on shelves from the top down.

use vstd::prelude::*;

verus! {

/// The key of a rasterised glyph: the font's glyph id and the quantised
/// pixel size.
#[derive(Clone, Copy, Debug, Hash, PartialEq, Eq, Structural)]
pub struct GlyphKey {
    pub glyph_id: u16,
    pub px_q: u16,
}

/// The state of a shelf packer: width, height, the cursor's column and row,
/// and the height of the current shelf.
pub type AtlasView = (nat, nat, nat, nat, nat);

/// The larger of two numbers.
pub open spec fn max_nat(a: nat, b: nat) -> nat {
    if a >= b {
        a
    } else {
        b
    }
}

/// The smaller of two numbers.
pub open spec fn min_nat(a: nat, b: nat) -> nat {
    if a <= b {
        a
    } else {
        b
    }
}

/// Placing a `gw` by `gh` bitmap: too large a bitmap is refused; one that
/// does not fit on the current shelf starts a new shelf below it (at least
/// one row down; a cursor past the bottom stays one row past it); one that
/// does not fit below the last shelf is refused. A placed bitmap goes at
/// the cursor, which moves right past it, and the shelf grows to its height.
pub open spec fn spec_alloc(s: AtlasView, gw: nat, gh: nat) -> (AtlasView, Option<(nat, nat)>) {
    let (w, h, x, y, shelf) = s;
    if gw > w || gh > h {
        (s, None)
    } else {
        let s1 = if x + gw > w {
            (w, h, 0nat, min_nat(y + max_nat(shelf, 1), h + 1), 0nat)
        } else {
            s
        };
        if s1.3 + gh > h {
            (s1, None)
        } else {
            ((w, h, s1.2 + gw, s1.3, max_nat(s1.4, gh)), Some((s1.2, s1.3)))
        }
    }
}

/// The cell `(px, py)` of the atlas is still free: it lies right of the
/// cursor on the current shelf or below, or below the current shelf.
pub open spec fn atlas_free(s: AtlasView, px: nat, py: nat) -> bool {
    let (w, h, x, y, shelf) = s;
    &&& px < w
    &&& py < h
    &&& ((py >= y && px >= x) || py >= y + shelf)
}

/// A shelf packer over a `w` by `h` texture.
pub struct Atlas {
    w: u32,
    h: u32,
    cursor_x: u32,
    cursor_y: u64,
    shelf_h: u32,
}

impl Atlas {
    /// The packer's state.
    pub closed spec fn view(&self) -> AtlasView {
        (
            self.w as nat,
            self.h as nat,
            self.cursor_x as nat,
            self.cursor_y as nat,
            self.shelf_h as nat,
        )
    }

    /// The cursor stays within the texture's width, at most one row below
    /// it, and the shelf is no taller than the texture.
    pub closed spec fn wf(&self) -> bool {
        &&& self.cursor_x <= self.w
        &&& self.cursor_y <= self.h as nat + 1
        &&& self.shelf_h <= self.h
    }

    /// An empty packer for a `w` by `h` texture.
    pub fn new(w: u32, h: u32) -> (a: Self)
        ensures
            a.wf(),
            a.view() == (w as nat, h as nat, 0nat, 0nat, 0nat),
    {
        Atlas { w, h, cursor_x: 0, cursor_y: 0, shelf_h: 0 }
    }

    /// The texture's width.
    pub fn width(&self) -> (w: u32)
        ensures
            w == self.view().0,
    {
        self.w
    }

    /// The texture's height.
    pub fn height(&self) -> (h: u32)
        ensures
            h == self.view().1,
    {
        self.h
    }

    /// Places a `gw` by `gh` bitmap: its top-left corner, or `None` when
    /// the texture has no room for it.
    pub fn alloc_rect(&mut self, gw: u32, gh: u32) -> (r: Option<(u32, u32)>)
        requires
            old(self).wf(),
        ensures
            final(self).wf(),
            ({
                let (s2, p) = spec_alloc(old(self).view(), gw as nat, gh as nat);
                &&& final(self).view() == s2
                &&& match p {
                    Some((x, y)) => r == Some((x as u32, y as u32)),
                    None => r is None,
                }
            }),
    {
        if gw > self.w || gh > self.h {
            return None;
        }
        if self.cursor_x as u64 + gw as u64 > self.w as u64 {
            self.cursor_x = 0;
            let step: u64 = if self.shelf_h > 1 {
                self.shelf_h as u64
            } else {
                1
            };
            let next = self.cursor_y + step;
            let limit = self.h as u64 + 1;
            self.cursor_y = if next <= limit {
                next
            } else {
                limit
            };
            self.shelf_h = 0;
        }
        if self.cursor_y + gh as u64 > self.h as u64 {
            return None;
        }
        let pos = (self.cursor_x, self.cursor_y as u32);
        self.cursor_x = self.cursor_x + gw;
        if gh > self.shelf_h {
            self.shelf_h = gh;
        }
        Some(pos)
    }
}

/// A placed bitmap lies inside the texture.
pub proof fn lemma_alloc_in_bounds(s: AtlasView, gw: nat, gh: nat)
    requires
        s.2 <= s.0,
    ensures
        spec_alloc(s, gw, gh).1 matches Some((x, y)) ==> x + gw <= s.0 && y + gh <= s.1,
{
}

/// Placing a bitmap only ever uses up free cells: every cell free after it
/// was free before.
pub proof fn lemma_alloc_free_shrinks(s: AtlasView, gw: nat, gh: nat, px: nat, py: nat)
    requires
        s.2 <= s.0,
    ensures
        atlas_free(spec_alloc(s, gw, gh).0, px, py) ==> atlas_free(s, px, py),
{
}

/// A placed bitmap covers only cells that were free, and none of them is
/// free afterwards.
pub proof fn lemma_alloc_takes_cells(s: AtlasView, gw: nat, gh: nat, px: nat, py: nat)
    requires
        s.2 <= s.0,
    ensures
        spec_alloc(s, gw, gh).1 matches Some((x, y)) ==> (x <= px < x + gw && y <= py < y + gh
            ==> atlas_free(s, px, py) && !atlas_free(spec_alloc(s, gw, gh).0, px, py)),
{
}

/// Two bitmaps placed one after the other do not overlap.
pub proof fn lemma_allocs_disjoint(s: AtlasView, a: (nat, nat), b: (nat, nat), px: nat, py: nat)
    requires
        s.2 <= s.0,
    ensures
        ({
            let (s1, p1) = spec_alloc(s, a.0, a.1);
            let (s2, p2) = spec_alloc(s1, b.0, b.1);
            match (p1, p2) {
                (Some((x1, y1)), Some((x2, y2))) => !(x1 <= px < x1 + a.0 && y1 <= py < y1 + a.1
                    && x2 <= px < x2 + b.0 && y2 <= py < y2 + b.1),
                _ => true,
            }
        }),
{
    let (s1, p1) = spec_alloc(s, a.0, a.1);
    lemma_alloc_takes_cells(s, a.0, a.1, px, py);
    lemma_alloc_takes_cells(s1, b.0, b.1, px, py);
}

/// Once the cursor is below the texture, nothing more is placed.
pub proof fn lemma_full_atlas_refuses(s: AtlasView, gw: nat, gh: nat)
    requires
        s.3 > s.1,
    ensures
        spec_alloc(s, gw, gh).1 is None,
        spec_alloc(s, gw, gh).0.3 > s.1,
{
}

} // verus!
