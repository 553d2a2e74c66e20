//! The padding of the clock label, remembered per monitor size.
use vstd::prelude::*;

verus! {

/// Padding chosen for each monitor size `(width, height)`, with the font
/// size it was chosen for: `(padding, font size)`.
pub struct ClockPaddingMap {
    pub entries: Vec<((i32, i32), (i32, i32))>,
}

impl ClockPaddingMap {
    /// Each monitor size is listed once.
    pub open spec fn wf(&self) -> bool {
        forall|i: int, j: int|
            0 <= i < j < self.entries@.len() ==> self.entries@[i].0 != self.entries@[j].0
    }

    /// Monitor size `d` is listed at place `i`.
    pub open spec fn has_at(&self, d: (i32, i32), i: int) -> bool {
        0 <= i < self.entries@.len() && self.entries@[i].0 == d
    }

    /// The padding and font size kept per monitor size.
    pub open spec fn padding_view(&self) -> Map<(i32, i32), (i32, i32)> {
        Map::new(
            |d: (i32, i32)| exists|i: int| self.has_at(d, i),
            |d: (i32, i32)| self.entries@[choose|i: int| self.has_at(d, i)].1,
        )
    }
}

impl View for ClockPaddingMap {
    type V = Map<(i32, i32), (i32, i32)>;

    open spec fn view(&self) -> Map<(i32, i32), (i32, i32)> {
        self.padding_view()
    }
}

/// In a well-formed map the entry at `i` is what the view holds.
proof fn lemma_padding_at(m: &ClockPaddingMap, i: int)
    requires
        m.wf(),
        0 <= i < m.entries@.len(),
    ensures
        m@.contains_key(m.entries@[i].0),
        m@[m.entries@[i].0] == m.entries@[i].1,
{
    let d = m.entries@[i].0;
    assert(m.has_at(d, i));
    let j = choose|j: int| m.has_at(d, j);
    if j != i {
        if j < i {
            assert(m.entries@[j].0 != m.entries@[i].0);
        } else {
            assert(m.entries@[i].0 != m.entries@[j].0);
        }
    }
}

/// A padding is known for monitor size `dims` and font size `font`.
pub open spec fn padding_known(v: Map<(i32, i32), (i32, i32)>, dims: (i32, i32), font: i32) -> bool {
    v.contains_key(dims) && v[dims].1 == font
}

/// What the clock is given after a layout on `dims` with `font`: nothing
/// when a padding is known, else the new `padding`.
pub open spec fn padding_result(
    v: Map<(i32, i32), (i32, i32)>,
    dims: (i32, i32),
    font: i32,
    padding: i32,
) -> Option<i32> {
    if padding_known(v, dims, font) {
        None
    } else {
        Some(padding)
    }
}

/// The remembered paddings after a layout on `dims` with `font`: unchanged
/// when a padding is known; all dropped when `dims` was known for another
/// font; then `padding` remembered for `dims` and `font`.
pub open spec fn padding_after(
    v: Map<(i32, i32), (i32, i32)>,
    dims: (i32, i32),
    font: i32,
    padding: i32,
) -> Map<(i32, i32), (i32, i32)> {
    if padding_known(v, dims, font) {
        v
    } else if v.contains_key(dims) {
        Map::<(i32, i32), (i32, i32)>::empty().insert(dims, (padding, font))
    } else {
        v.insert(dims, (padding, font))
    }
}

/// A padding once chosen for a monitor size and font is remembered: laying
/// out again on the same size with the same font changes nothing and
/// hands out no new padding.
pub proof fn lemma_padding_remembered(
    v: Map<(i32, i32), (i32, i32)>,
    dims: (i32, i32),
    font: i32,
    padding: i32,
    again: i32,
)
    ensures
        padding_known(padding_after(v, dims, font, padding), dims, font),
        padding_result(padding_after(v, dims, font, padding), dims, font, again) is None,
        padding_after(padding_after(v, dims, font, padding), dims, font, again) == padding_after(
            v,
            dims,
            font,
            padding,
        ),
{
}

impl ClockPaddingMap {
    /// No monitor sizes yet.
    pub fn new() -> (m: Self)
        ensures
            m.wf(),
            m@ == Map::<(i32, i32), (i32, i32)>::empty(),
    {
        let m = ClockPaddingMap { entries: Vec::new() };
        assert(m@ =~= Map::<(i32, i32), (i32, i32)>::empty());
        m
    }

    /// The clock is laid out on a monitor of size `current_dimensions` with
    /// text of `pango_font_size`. When a padding is known for that size and
    /// font, nothing changes (`None`). When one is known for another font
    /// (the style sheet was reloaded), every remembered padding is dropped;
    /// then `padding` is remembered for this size and font and returned.
    pub fn check_padding_map(
        &mut self,
        current_dimensions: (i32, i32),
        pango_font_size: i32,
        padding: i32,
    ) -> (r: Option<i32>)
        requires
            old(self).wf(),
        ensures
            final(self).wf(),
            r == padding_result(old(self)@, current_dimensions, pango_font_size, padding),
            final(self)@ == padding_after(
                old(self)@,
                current_dimensions,
                pango_font_size,
                padding,
            ),
    {
        let mut i: usize = 0;
        while i < self.entries.len()
            invariant
                i <= self.entries@.len(),
                self.wf(),
                *self == *old(self),
                forall|k: int| 0 <= k < i ==> self.entries@[k].0 != current_dimensions,
            decreases self.entries@.len() - i,
        {
            let d = self.entries[i].0;
            if d.0 == current_dimensions.0 && d.1 == current_dimensions.1 {
                proof {
                    lemma_padding_at(self, i as int);
                }
                if self.entries[i].1.1 != pango_font_size {
                    self.entries = Vec::new();
                    self.entries.push((current_dimensions, (padding, pango_font_size)));
                    proof {
                        assert(self.has_at(current_dimensions, 0));
                        lemma_padding_at(self, 0);
                        assert(self@ =~= Map::<(i32, i32), (i32, i32)>::empty().insert(
                            current_dimensions,
                            (padding, pango_font_size),
                        ));
                    }
                    return Some(padding);
                }
                return None;
            }
            i += 1;
        }
        let ghost old_map = *self;
        self.entries.push((current_dimensions, (padding, pango_font_size)));
        proof {
            assert forall|a: int, b: int| 0 <= a < b < self.entries@.len() implies self.entries@[a].0
                != self.entries@[b].0 by {
                if b == old_map.entries@.len() {
                    assert(old_map.entries@[a].0 != current_dimensions);
                } else {
                    assert(old_map.entries@[a].0 != old_map.entries@[b].0);
                }
            }
            let n = old_map.entries@.len() as int;
            assert(!old_map@.contains_key(current_dimensions)) by {
                if old_map@.contains_key(current_dimensions) {
                    let j = choose|j: int| old_map.has_at(current_dimensions, j);
                }
            }
            let expected = old_map@.insert(current_dimensions, (padding, pango_font_size));
            assert forall|k: (i32, i32)| self@.contains_key(k) <==> expected.contains_key(k) by {
                if self@.contains_key(k) {
                    let j = choose|j: int| self.has_at(k, j);
                    if j < n {
                        assert(old_map.has_at(k, j));
                    }
                }
                if expected.contains_key(k) {
                    if k == current_dimensions {
                        assert(self.has_at(k, n));
                    } else {
                        let j = choose|j: int| old_map.has_at(k, j);
                        assert(self.has_at(k, j));
                    }
                }
            }
            assert forall|k: (i32, i32)| #[trigger] self@.contains_key(k) implies self@[k]
                == expected[k] by {
                let j = choose|j: int| self.has_at(k, j);
                lemma_padding_at(self, j);
                if j < n {
                    lemma_padding_at(&old_map, j);
                }
            }
            assert(self@ =~= expected);
        }
        Some(padding)
    }
}

} // verus!
