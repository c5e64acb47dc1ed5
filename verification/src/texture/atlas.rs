//! Deterministic shelf packing of named rectangles into a texture atlas.

use vstd::prelude::*;

use crate::ids::ValidationError;

verus! {

/// A pixel-space rectangle inside an atlas.
#[derive(Clone, Copy, Debug, PartialEq, Eq, Structural, Hash, Default)]
pub struct AtlasRect {
    /// Left edge in pixels.
    pub x: u32,
    /// Top edge in pixels.
    pub y: u32,
    /// Width in pixels.
    pub width: u32,
    /// Height in pixels.
    pub height: u32,
}

impl AtlasRect {
    /// Creates a pixel-space rectangle.
    pub fn new(x: u32, y: u32, width: u32, height: u32) -> (r: AtlasRect)
        ensures
            r == (AtlasRect { x, y, width, height }),
    {
        AtlasRect { x, y, width, height }
    }
}

/// A named atlas entry.
#[derive(Clone, Debug, PartialEq, Eq)]
pub struct AtlasEntry {
    /// Entry name, unique within its atlas.
    pub name: String,
    /// Pixel-space rectangle.
    pub rect: AtlasRect,
}

/// Abstract state of an atlas: its size, padding, packing cursor and entries.
pub ghost struct AtlasModel {
    /// Atlas width in pixels.
    pub width: u32,
    /// Atlas height in pixels.
    pub height: u32,
    /// Gap between entries and shelves.
    pub padding: u32,
    /// Left edge of the next entry on the open shelf.
    pub cursor_x: u32,
    /// Top edge of the open shelf.
    pub cursor_y: u32,
    /// Height of the tallest entry on the open shelf.
    pub shelf_height: u32,
    /// Entry names in insertion order.
    pub names: Seq<Seq<char>>,
    /// Entry rectangles in insertion order.
    pub rects: Seq<AtlasRect>,
}

/// Shelf-packing texture atlas.
#[derive(Clone, Debug, PartialEq, Eq)]
pub struct TextureAtlas {
    /// Atlas width in pixels.
    pub width: u32,
    /// Atlas height in pixels.
    pub height: u32,
    /// Gap inserted between entries and between shelves.
    pub padding: u32,
    cursor_x: u32,
    cursor_y: u32,
    shelf_height: u32,
    entries: Vec<AtlasEntry>,
}

/// Whether `a` and `b` share no pixel.
pub open spec fn rects_disjoint(a: AtlasRect, b: AtlasRect) -> bool {
    ||| a.x + a.width <= b.x
    ||| b.x + b.width <= a.x
    ||| a.y + a.height <= b.y
    ||| b.y + b.height <= a.y
}

/// Whether `r` lies inside a `width x height` atlas.
pub open spec fn rect_inside(r: AtlasRect, width: u32, height: u32) -> bool {
    r.x + r.width <= width && r.y + r.height <= height
}

/// Whether inserting a `w x h` entry named `name` passes the argument checks.
pub open spec fn insert_args_ok(a: AtlasModel, name: Seq<char>, w: u32, h: u32) -> bool {
    &&& a.width != 0 && a.height != 0 && w != 0 && h != 0
    &&& w <= a.width && h <= a.height
    &&& !a.names.contains(name)
}

/// Whether the entry starts a new shelf.
pub open spec fn insert_wraps(a: AtlasModel, w: u32) -> bool {
    a.cursor_x > 0 && a.cursor_x + w > a.width
}

/// The shelf row an entry lands on, once wrapping succeeded.
pub open spec fn insert_row(a: AtlasModel, w: u32) -> int {
    if insert_wraps(a, w) {
        a.cursor_y + a.shelf_height + a.padding
    } else {
        a.cursor_y as int
    }
}

/// The inputs on which the unchecked cursor arithmetic of `insert` overflows.
pub open spec fn insert_overflows(a: AtlasModel, name: Seq<char>, w: u32, h: u32) -> bool {
    &&& insert_args_ok(a, name, w, h)
    &&& {
        ||| (a.cursor_x > 0 && a.cursor_x + w > u32::MAX)
        ||| (insert_row(a, w) <= u32::MAX && insert_row(a, w) + h > u32::MAX)
    }
}

/// The inputs on which `insert` fails on a checked cursor overflow: moving to
/// the next shelf overflows (the cursor has then already returned to the left
/// edge), or advancing past a stored entry overflows (the entry then stays
/// stored). Both leave the atlas outside the packing invariant.
pub open spec fn insert_cursor_overflows(a: AtlasModel, name: Seq<char>, w: u32, h: u32) -> bool {
    &&& insert_args_ok(a, name, w, h)
    &&& {
        ||| (insert_wraps(a, w) && insert_row(a, w) > u32::MAX)
        ||| ({
            let cx: int = if insert_wraps(a, w) {
                0
            } else {
                a.cursor_x as int
            };
            &&& insert_row(a, w) <= u32::MAX
            &&& insert_row(a, w) + h <= a.height
            &&& cx + w + a.padding > u32::MAX
        })
    }
}

/// Final state and result of inserting a `w x h` entry named `name` into `a`.
pub open spec fn insert_outcome(a: AtlasModel, name: Seq<char>, w: u32, h: u32) -> (AtlasModel, Result<
    AtlasRect,
    ValidationError,
>) {
    if a.width == 0 || a.height == 0 || w == 0 || h == 0 || w > a.width || h > a.height {
        (a, Err(ValidationError::OutOfRange))
    } else if a.names.contains(name) {
        (a, Err(ValidationError::InvalidState))
    } else if insert_wraps(a, w) && insert_row(a, w) > u32::MAX {
        (AtlasModel { cursor_x: 0, ..a }, Err(ValidationError::OutOfRange))
    } else {
        let cx: u32 = if insert_wraps(a, w) {
            0
        } else {
            a.cursor_x
        };
        let cy = insert_row(a, w) as u32;
        let sh: u32 = if insert_wraps(a, w) {
            0
        } else {
            a.shelf_height
        };
        if cy + h > a.height {
            (AtlasModel { cursor_x: cx, cursor_y: cy, shelf_height: sh, ..a }, Err(ValidationError::OutOfRange))
        } else {
            let rect = AtlasRect { x: cx, y: cy, width: w, height: h };
            let placed = AtlasModel {
                cursor_x: cx,
                cursor_y: cy,
                shelf_height: sh,
                names: a.names.push(name),
                rects: a.rects.push(rect),
                ..a
            };
            if cx + w + a.padding > u32::MAX {
                (placed, Err(ValidationError::OutOfRange))
            } else {
                (
                    AtlasModel {
                        cursor_x: (cx + w + a.padding) as u32,
                        shelf_height: if sh >= h {
                            sh
                        } else {
                            h
                        },
                        ..placed
                    },
                    Ok(rect),
                )
            }
        }
    }
}

/// Whether entry `r` sits on a closed shelf or left of the cursor on the open one.
pub open spec fn behind_cursor(a: AtlasModel, r: AtlasRect) -> bool {
    ||| r.y + r.height <= a.cursor_y
    ||| (r.y == a.cursor_y && r.height <= a.shelf_height && r.x + r.width <= a.cursor_x)
}

/// The packing invariant: unique names, every entry inside the atlas and behind
/// the cursor, and no two entries overlapping.
pub open spec fn packed_well(a: AtlasModel) -> bool {
    &&& a.names.len() == a.rects.len()
    &&& forall|i: int, j: int| 0 <= i < j < a.names.len() ==> a.names[i] != a.names[j]
    &&& forall|i: int| 0 <= i < a.rects.len() ==> rect_inside(#[trigger] a.rects[i], a.width, a.height)
    &&& forall|i: int| 0 <= i < a.rects.len() ==> behind_cursor(a, #[trigger] a.rects[i])
    &&& forall|i: int, j: int|
        0 <= i < a.rects.len() && 0 <= j < a.rects.len() && i != j ==> rects_disjoint(
            #[trigger] a.rects[i],
            #[trigger] a.rects[j],
        )
    &&& a.cursor_x <= a.width + a.padding
    &&& a.cursor_y <= a.height + a.padding
    &&& a.cursor_x == 0 ==> a.shelf_height == 0
    &&& a.cursor_x > 0 ==> a.cursor_y + a.shelf_height <= a.height
}

/// Packing law: unless its cursor arithmetic overflows, `insert` keeps the
/// packing invariant; a successful insert returns a `w x h` rectangle inside
/// the atlas that overlaps no earlier entry and appends it with its name, and
/// a failed one stores nothing.
pub proof fn lemma_insert_keeps_packing(a: AtlasModel, name: Seq<char>, w: u32, h: u32)
    requires
        packed_well(a),
        !insert_overflows(a, name, w, h),
        !insert_cursor_overflows(a, name, w, h),
    ensures
        packed_well(insert_outcome(a, name, w, h).0),
        insert_outcome(a, name, w, h).0.width == a.width,
        insert_outcome(a, name, w, h).0.height == a.height,
        insert_outcome(a, name, w, h).0.padding == a.padding,
        insert_outcome(a, name, w, h).1 matches Ok(rect) ==> {
            &&& rect.width == w && rect.height == h
            &&& rect_inside(rect, a.width, a.height)
            &&& forall|i: int| 0 <= i < a.rects.len() ==> rects_disjoint(rect, #[trigger] a.rects[i])
            &&& insert_outcome(a, name, w, h).0.rects == a.rects.push(rect)
            &&& insert_outcome(a, name, w, h).0.names == a.names.push(name)
        },
        insert_outcome(a, name, w, h).1 is Err ==> {
            &&& insert_outcome(a, name, w, h).0.rects == a.rects
            &&& insert_outcome(a, name, w, h).0.names == a.names
        },
{
    let out = insert_outcome(a, name, w, h).0;
    if insert_args_ok(a, name, w, h) {
        let wraps = insert_wraps(a, w);
        let cy = insert_row(a, w);
        assert(cy <= a.height + a.padding);
        let cx: u32 = if wraps {
            0
        } else {
            a.cursor_x
        };
        let sh: u32 = if wraps {
            0
        } else {
            a.shelf_height
        };
        if cy + h <= a.height && cx + w + a.padding <= u32::MAX {
            let rect = AtlasRect { x: cx, y: cy as u32, width: w, height: h };
            assert(cx + w <= a.width);
            assert forall|i: int| 0 <= i < a.rects.len() implies rects_disjoint(
                rect,
                #[trigger] a.rects[i],
            ) by {
                assert(behind_cursor(a, a.rects[i]));
            }
            assert(out.rects == a.rects.push(rect));
            assert(out.names == a.names.push(name));
            assert forall|i: int| 0 <= i < out.rects.len() implies behind_cursor(
                out,
                #[trigger] out.rects[i],
            ) by {
                if i < a.rects.len() {
                    assert(behind_cursor(a, a.rects[i]));
                    assert(out.rects[i] == a.rects[i]);
                }
            }
            assert forall|i: int, j: int|
                0 <= i < out.rects.len() && 0 <= j < out.rects.len() && i != j implies rects_disjoint(
                #[trigger] out.rects[i],
                #[trigger] out.rects[j],
            ) by {
                if i < a.rects.len() && j < a.rects.len() {
                    assert(rects_disjoint(a.rects[i], a.rects[j]));
                } else if i < a.rects.len() {
                    assert(rects_disjoint(rect, a.rects[i]));
                } else {
                    assert(rects_disjoint(rect, a.rects[j]));
                }
            }
            assert forall|i: int, j: int| 0 <= i < j < out.names.len() implies out.names[i]
                != out.names[j] by {
                if j == a.names.len() {
                    assert(a.names.contains(a.names[i]));
                }
            }
            assert forall|i: int| 0 <= i < out.rects.len() implies rect_inside(
                #[trigger] out.rects[i],
                out.width,
                out.height,
            ) by {
                if i < a.rects.len() {
                    assert(out.rects[i] == a.rects[i]);
                }
            }
        }
    }
}

impl TextureAtlas {
    /// Abstract state of the atlas.
    pub closed spec fn view(&self) -> AtlasModel {
        AtlasModel {
            width: self.width,
            height: self.height,
            padding: self.padding,
            cursor_x: self.cursor_x,
            cursor_y: self.cursor_y,
            shelf_height: self.shelf_height,
            names: self.entries@.map_values(|e: AtlasEntry| e.name@),
            rects: self.entries@.map_values(|e: AtlasEntry| e.rect),
        }
    }

    /// Creates an empty atlas without padding.
    pub fn new(width: u32, height: u32) -> (t: TextureAtlas)
        ensures
            packed_well(t@),
            t@ == (AtlasModel {
                width,
                height,
                padding: 0,
                cursor_x: 0,
                cursor_y: 0,
                shelf_height: 0,
                names: Seq::empty(),
                rects: Seq::empty(),
            }),
    {
        Self::with_padding(width, height, 0)
    }

    /// Creates an empty atlas with padding between entries and shelves.
    pub fn with_padding(width: u32, height: u32, padding: u32) -> (t: TextureAtlas)
        ensures
            packed_well(t@),
            t@ == (AtlasModel {
                width,
                height,
                padding,
                cursor_x: 0,
                cursor_y: 0,
                shelf_height: 0,
                names: Seq::empty(),
                rects: Seq::empty(),
            }),
    {
        let t = TextureAtlas {
            width,
            height,
            padding,
            cursor_x: 0,
            cursor_y: 0,
            shelf_height: 0,
            entries: Vec::new(),
        };
        assert(t@.names =~= Seq::<Seq<char>>::empty());
        assert(t@.rects =~= Seq::<AtlasRect>::empty());
        t
    }

    /// Returns the index of the entry named `name`, if any.
    fn find(&self, name: &String) -> (r: Option<usize>)
        ensures
            match r {
                Some(i) => i < self@.names.len() && self@.names[i as int] == name@ && forall|j: int|
                    0 <= j < i ==> self@.names[j] != name@,
                None => !self@.names.contains(name@),
            },
    {
        let mut i: usize = 0;
        while i < self.entries.len()
            invariant
                i <= self.entries@.len(),
                forall|j: int| 0 <= j < i ==> self@.names[j] != name@,
            decreases self.entries@.len() - i,
        {
            if self.entries[i].name == *name {
                return Some(i);
            }
            i = i + 1;
        }
        None
    }

    /// Packs a named `width x height` rectangle and returns its position.
    /// When the cursor arithmetic overflows, the insert fails after the
    /// cursor has moved to the next shelf, or after the entry was stored.
    pub fn insert(&mut self, name: &str, width: u32, height: u32) -> (r: Result<
        AtlasRect,
        ValidationError,
    >)
        requires
            !insert_overflows(old(self)@, name@, width, height),
        ensures
            (final(self)@, r) == insert_outcome(old(self)@, name@, width, height),
            packed_well(old(self)@) && !insert_cursor_overflows(old(self)@, name@, width, height) ==> packed_well(
                final(self)@,
            ),
    {
        proof {
            if packed_well(self@) && !insert_cursor_overflows(self@, name@, width, height) {
                lemma_insert_keeps_packing(self@, name@, width, height);
            }
        }
        if self.width == 0 || self.height == 0 || width == 0 || height == 0 {
            return Err(ValidationError::OutOfRange);
        }
        if width > self.width || height > self.height {
            return Err(ValidationError::OutOfRange);
        }
        let name = name.to_owned();
        if self.find(&name).is_some() {
            return Err(ValidationError::InvalidState);
        }
        let ghost a = self@;
        if self.cursor_x > 0 && self.cursor_x + width > self.width {
            self.cursor_x = 0;
            let next_y = match self.cursor_y.checked_add(self.shelf_height) {
                Some(v) => v.checked_add(self.padding),
                None => None,
            };
            match next_y {
                Some(v) => {
                    self.cursor_y = v;
                },
                None => {
                    assert(self@ == AtlasModel { cursor_x: 0, ..a });
                    return Err(ValidationError::OutOfRange);
                },
            }
            self.shelf_height = 0;
        }
        if self.cursor_y + height > self.height {
            return Err(ValidationError::OutOfRange);
        }
        let rect = AtlasRect::new(self.cursor_x, self.cursor_y, width, height);
        let ghost before = self@;
        self.entries.push(AtlasEntry { name, rect });
        proof {
            assert(self@.names =~= before.names.push(name@));
            assert(self@.rects =~= before.rects.push(rect));
        }
        let next_x = match self.cursor_x.checked_add(width) {
            Some(v) => v.checked_add(self.padding),
            None => None,
        };
        match next_x {
            Some(v) => {
                self.cursor_x = v;
            },
            None => {
                return Err(ValidationError::OutOfRange);
            },
        }
        if height > self.shelf_height {
            self.shelf_height = height;
        }
        Ok(rect)
    }

    /// Returns the rectangle of the first entry named `name`.
    pub fn rect(&self, name: &str) -> (r: Option<AtlasRect>)
        ensures
            match r {
                Some(rect) => exists|i: int|
                    0 <= i < self@.names.len() && self@.names[i] == name@ && self@.rects[i] == rect && forall|j: int|
                        0 <= j < i ==> self@.names[j] != name@,
                None => !self@.names.contains(name@),
            },
    {
        let name = name.to_owned();
        match self.find(&name) {
            Some(i) => Some(self.entries[i].rect),
            None => None,
        }
    }

    /// Returns all packed entries in insertion order.
    pub fn entries(&self) -> (r: &[AtlasEntry])
        ensures
            r@.map_values(|e: AtlasEntry| e.name@) == self@.names,
            r@.map_values(|e: AtlasEntry| e.rect) == self@.rects,
    {
        self.entries.as_slice()
    }
}

} // verus!
