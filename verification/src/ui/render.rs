use vstd::prelude::*;

use crate::world::{Board, Position};
use crate::world::occupancy::lemma_flat_index;

verus! {

/// A left (or top) edge pulled back so that a view of `view` cells stays on a
/// board `extent` cells long.
pub open spec fn fitted(edge: usize, extent: usize, view: usize) -> int {
    if edge <= max_edge(extent, view) {
        edge as int
    } else {
        max_edge(extent, view)
    }
}

/// `v` kept inside `lo ..= hi`.
pub open spec fn clamp_int(v: int, lo: int, hi: int) -> int {
    if v < lo {
        lo
    } else if v > hi {
        hi
    } else {
        v
    }
}

/// The largest left (or top) edge a view of `view` cells can have on a board
/// `extent` cells long: the view stays on the board, or at 0 if it is wider.
pub open spec fn max_edge(extent: usize, view: usize) -> int {
    if extent >= view {
        extent - view
    } else {
        0
    }
}

/// Where the viewer looks: the board cell at the top-left corner of the view,
/// the size of the last view drawn, and the state of a middle-button drag.
pub struct Camera {
    pub x: usize,
    pub y: usize,
    pub last_view_w: usize,
    pub last_view_h: usize,
    pub is_dragging: bool,
    pub last_mouse_pos: Option<(u16, u16)>,
}

/// The side panel's tabs, in order.
#[derive(Clone, Copy, Debug, Default, PartialEq, Eq, Structural)]
pub enum SideTab {
    #[default]
    Stats,
    Charts,
    Tps,
}

impl SideTab {
    pub const COUNT: usize = 3;

    pub open spec fn position(self) -> int {
        match self {
            SideTab::Stats => 0,
            SideTab::Charts => 1,
            SideTab::Tps => 2,
        }
    }

    pub open spec fn at(index: int) -> SideTab {
        if index % 3 == 1 {
            SideTab::Charts
        } else if index % 3 == 2 {
            SideTab::Tps
        } else {
            SideTab::Stats
        }
    }

    pub fn index(self) -> (i: usize)
        ensures
            i == self.position(),
    {
        match self {
            SideTab::Stats => 0,
            SideTab::Charts => 1,
            SideTab::Tps => 2,
        }
    }

    /// The tab at `index`, counting round: index 3 is `Stats` again.
    pub fn from_index(index: usize) -> (tab: SideTab)
        ensures
            tab == Self::at(index as int),
    {
        match index % Self::COUNT {
            1 => SideTab::Charts,
            2 => SideTab::Tps,
            _ => SideTab::Stats,
        }
    }

    /// The tab to the right, the last one wrapping round to the first.
    pub fn next(self) -> (tab: SideTab)
        ensures
            tab == Self::at(self.position() + 1),
    {
        Self::from_index(self.index() + 1)
    }

    /// The tab to the left, the first one wrapping round to the last.
    pub fn prev(self) -> (tab: SideTab)
        ensures
            tab == Self::at(self.position() + 2),
    {
        Self::from_index(self.index() + Self::COUNT - 1)
    }

    pub fn titles() -> (titles: [&'static str; 3])
        ensures
            titles@ == seq!["Stats", "Charts", "TPS"],
    {
        ["Stats", "Charts", "TPS"]
    }
}

/// `next` and `prev` undo each other, and three `next`s come back round.
pub proof fn lemma_tabs_cycle(tab: SideTab)
    ensures
        SideTab::at(SideTab::at(tab.position() + 1).position() + 2) == tab,
        SideTab::at(SideTab::at(tab.position() + 2).position() + 1) == tab,
        SideTab::at(SideTab::at(SideTab::at(tab.position() + 1).position() + 1).position() + 1) == tab,
{
}

/// How many board cells fit in an area of `width` by `height` terminal cells:
/// a border of one cell all round, and two columns per board cell.
pub fn viewport_size(width: u16, height: u16) -> (view: (usize, usize))
    ensures
        view.0 == (if width >= 2 { width - 2 } else { 0 }) / 2,
        view.1 == if height >= 2 { height - 2 } else { 0 },
{
    let cols = (width.saturating_sub(2) / 2) as usize;
    let rows = height.saturating_sub(2) as usize;
    (cols, rows)
}

fn clamp_edge(edge: usize, delta: isize, extent: usize, view: usize) -> (r: usize)
    ensures
        r == clamp_int(edge + delta, 0, max_edge(extent, view)),
{
    let max = extent.saturating_sub(view);
    let moved = edge as i128 + delta as i128;
    if moved < 0 {
        0
    } else if moved > max as i128 {
        max
    } else {
        moved as usize
    }
}

impl Camera {
    /// A camera looking at `(x, y)`, with no view drawn yet and no drag.
    pub fn new(x: usize, y: usize) -> (camera: Self)
        ensures
            camera.x == x,
            camera.y == y,
            camera.last_view_w == 0,
            camera.last_view_h == 0,
            !camera.is_dragging,
            camera.last_mouse_pos is None,
    {
        Camera { x, y, last_view_w: 0, last_view_h: 0, is_dragging: false, last_mouse_pos: None }
    }

    /// Pans by `(dx, dy)` cells, keeping a `view_w` by `view_h` view on the
    /// board.
    pub fn move_by(&mut self, dx: isize, dy: isize, board: &Board, view_w: usize, view_h: usize)
        ensures
            final(self).x == clamp_int(old(self).x + dx, 0, max_edge(board.width, view_w)),
            final(self).y == clamp_int(old(self).y + dy, 0, max_edge(board.height, view_h)),
            final(self).last_view_w == old(self).last_view_w,
            final(self).last_view_h == old(self).last_view_h,
            final(self).is_dragging == old(self).is_dragging,
            final(self).last_mouse_pos == old(self).last_mouse_pos,
    {
        self.x = clamp_edge(self.x, dx, board.width, view_w);
        self.y = clamp_edge(self.y, dy, board.height, view_h);
    }

    /// Records the size of the view just laid out and pulls the camera back
    /// so that the view stays on the board.
    pub fn fit_view(&mut self, board: &Board, view_w: usize, view_h: usize)
        ensures
            final(self).last_view_w == view_w,
            final(self).last_view_h == view_h,
            final(self).x == fitted(old(self).x, board.width, view_w),
            final(self).y == fitted(old(self).y, board.height, view_h),
            final(self).is_dragging == old(self).is_dragging,
            final(self).last_mouse_pos == old(self).last_mouse_pos,
    {
        self.last_view_w = view_w;
        self.last_view_h = view_h;
        let max_x = board.width.saturating_sub(view_w);
        let max_y = board.height.saturating_sub(view_h);
        if self.x > max_x {
            self.x = max_x;
        }
        if self.y > max_y {
            self.y = max_y;
        }
    }
}

/// Panning never takes the view's corner off the board (or past 0 when the
/// view is wider than the board), and panning by nothing leaves a camera in
/// range where it is.
pub proof fn lemma_pan_stays_in_range(left: int, delta: int, extent: usize, view: usize)
    ensures
        0 <= clamp_int(left + delta, 0, max_edge(extent, view)) <= max_edge(extent, view),
        0 <= left <= max_edge(extent, view) ==> clamp_int(left + 0, 0, max_edge(extent, view)) == left,
{
}

/// After fitting, the view lies on the board (when the board is at least as
/// long as the view), fitting twice changes nothing more, and an edge that
/// already fitted is left alone.
pub proof fn lemma_fit_keeps_view_on_board(edge: usize, extent: usize, view: usize)
    ensures
        0 <= fitted(edge, extent, view) <= max_edge(extent, view),
        extent >= view ==> fitted(edge, extent, view) + view <= extent,
        fitted(fitted(edge, extent, view) as usize, extent, view) == fitted(edge, extent, view),
        edge <= max_edge(extent, view) ==> fitted(edge, extent, view) == edge,
{
}

/// `items[i]` is what cell `(x, y)` shows: it lies there, nothing there is on
/// a higher layer, and of the things on its layer it came first.
pub open spec fn shown_at(items: Seq<Position>, x: int, y: int, i: int) -> bool {
    &&& 0 <= i < items.len()
    &&& items[i].x == x && items[i].y == y
    &&& forall|j: int| 0 <= j < items.len() && items[j].x == x && items[j].y == y ==> items[j].z <= items[i].z
    &&& forall|j: int| 0 <= j < i && items[j].x == x && items[j].y == y ==> items[j].z < items[i].z
}

/// Something lies on cell `(x, y)`.
pub open spec fn occupied_cell(items: Seq<Position>, x: int, y: int) -> bool {
    exists|j: int| 0 <= j < items.len() && items[j].x == x && items[j].y == y
}

/// For each cell of a `width` by `height` board (row after row), the index in
/// `items` of what it shows: of the things lying there, the one on the
/// highest layer, the first of them among equals; `None` where nothing lies.
pub fn visible_tiles(width: usize, height: usize, items: &Vec<Position>) -> (tiles: Vec<Option<usize>>)
    requires
        width * height <= usize::MAX,
    ensures
        tiles@.len() == width * height,
        forall|x: int, y: int|
            0 <= x < width && 0 <= y < height ==> match #[trigger] tiles@[y * width + x] {
                Some(i) => shown_at(items@, x, y, i as int),
                None => !occupied_cell(items@, x, y),
            },
{
    let n: usize = width * height;
    let mut tiles: Vec<Option<usize>> = Vec::new();
    let mut c: usize = 0;
    while c < n
        invariant
            c <= n,
            n == width * height,
            tiles@.len() == c,
            forall|k: int| 0 <= k < c ==> tiles@[k] is None,
        decreases n - c,
    {
        tiles.push(None);
        c = c + 1;
    }
    assert forall|x: int, y: int|
        0 <= x < width && 0 <= y < height implies match #[trigger] tiles@[y * width + x] {
            Some(k) => shown_at(items@.subrange(0, 0), x, y, k as int),
            None => !occupied_cell(items@.subrange(0, 0), x, y),
        } by {
        lemma_flat_index(width as int, height as int, x, y, x, y);
    }
    let mut i: usize = 0;
    while i < items.len()
        invariant
            n == width * height,
            tiles@.len() == n,
            i <= items@.len(),
            forall|x: int, y: int|
                0 <= x < width && 0 <= y < height ==> match #[trigger] tiles@[y * width + x] {
                    Some(k) => shown_at(items@.subrange(0, i as int), x, y, k as int),
                    None => !occupied_cell(items@.subrange(0, i as int), x, y),
                },
        decreases items@.len() - i,
    {
        let p = items[i];
        let ghost pre = items@.subrange(0, i as int);
        let ghost post = items@.subrange(0, i + 1);
        assert(post =~= pre.push(p));
        let ghost before = tiles@;
        if p.x < width && p.y < height {
            proof {
                lemma_flat_index(width as int, height as int, p.x as int, p.y as int, p.x as int, p.y as int);
            }
            let cell = p.y * width + p.x;
            let take = match tiles[cell] {
                None => true,
                Some(k) => p.z > items[k].z,
            };
            if take {
                tiles.set(cell, Some(i));
            }
            assert forall|x: int, y: int|
                0 <= x < width && 0 <= y < height implies match #[trigger] tiles@[y * width + x] {
                    Some(k) => shown_at(post, x, y, k as int),
                    None => !occupied_cell(post, x, y),
                } by {
                lemma_flat_index(width as int, height as int, x, y, p.x as int, p.y as int);
                let old_entry = before[y * width + x];
                assert(old_entry == match old_entry {
                    Some(k) => Some(k),
                    None => None::<usize>,
                });
                if x == p.x && y == p.y {
                    match old_entry {
                        Some(k) => {
                            assert(shown_at(pre, x, y, k as int));
                            assert(pre[k as int] == items@[k as int]);
                        },
                        None => {
                            assert(!occupied_cell(pre, x, y));
                        },
                    }
                    assert(post[i as int] == p);
                } else {
                    match old_entry {
                        Some(k) => {
                            assert(shown_at(pre, x, y, k as int));
                        },
                        None => {
                            if occupied_cell(post, x, y) {
                                let j = choose|j: int| 0 <= j < post.len() && post[j].x == x && post[j].y == y;
                                assert(pre[j] == post[j]);
                            }
                        },
                    }
                }
            }
        } else {
            assert forall|x: int, y: int|
                0 <= x < width && 0 <= y < height implies match #[trigger] tiles@[y * width + x] {
                    Some(k) => shown_at(post, x, y, k as int),
                    None => !occupied_cell(post, x, y),
                } by {
                match tiles@[y * width + x] {
                    Some(k) => {
                        assert(shown_at(pre, x, y, k as int));
                    },
                    None => {
                        if occupied_cell(post, x, y) {
                            let j = choose|j: int| 0 <= j < post.len() && post[j].x == x && post[j].y == y;
                            assert(pre[j] == post[j]);
                        }
                    },
                }
            }
        }
        i = i + 1;
    }
    assert(items@.subrange(0, items@.len() as int) =~= items@);
    tiles
}


/// The tabs in order Stats, Charts, TPS: `next` goes one to the right and
/// wraps from TPS back to Stats; `prev` goes the other way.
pub proof fn lemma_tab_order()
    ensures
        SideTab::at(SideTab::Stats.position() + 1) == SideTab::Charts,
        SideTab::at(SideTab::Charts.position() + 1) == SideTab::Tps,
        SideTab::at(SideTab::Tps.position() + 1) == SideTab::Stats,
        SideTab::at(SideTab::Stats.position() + 2) == SideTab::Tps,
        SideTab::at(SideTab::Charts.position() + 2) == SideTab::Stats,
        SideTab::at(SideTab::Tps.position() + 2) == SideTab::Charts,
        forall|i: int| 0 <= i < 3 ==> #[trigger] SideTab::at(i).position() == i,
{
}

} // verus!
