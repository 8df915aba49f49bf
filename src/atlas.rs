use std::collections::VecDeque;
use vstd::prelude::*;

verus! {

/// A rectangle of texels inside a texture atlas.
#[derive(Clone, Copy, Debug, PartialEq, Eq, Structural)]
pub struct PackingRect {
    pub x: u32,
    pub y: u32,
    pub width: u32,
    pub height: u32,
}

/// Quadrant `slot` of `r`: 0 at its corner, 1 shifted along x, 2 shifted
/// along y, 3 shifted along both; each is half as wide and half as high,
/// rounded down.
pub open spec fn quadrant(r: PackingRect, slot: int) -> PackingRect {
    let hw = r.width / 2;
    let hh = r.height / 2;
    PackingRect {
        x: if slot == 1 || slot == 3 { (r.x + hw) as u32 } else { r.x },
        y: if slot >= 2 { (r.y + hh) as u32 } else { r.y },
        width: hw,
        height: hh,
    }
}

/// Cell `j` of the quadtree over `root`, numbered breadth-first: cell 0 is
/// the root and the children of cell `j` are cells `4j + 1 ..= 4j + 4`.
pub open spec fn cell(root: PackingRect, j: nat) -> PackingRect
    decreases j,
{
    if j == 0 {
        root
    } else {
        quadrant(cell(root, ((j - 1) / 4) as nat), (j - 1) % 4)
    }
}

/// The whole atlas as a rectangle.
pub open spec fn atlas_rect(width: u32, height: u32) -> PackingRect {
    PackingRect { x: 0, y: 0, width, height }
}

/// The first cell handed out when packing `count` textures: the root is
/// subdivided `ceil(count / 3)` times, each time replacing the largest
/// remaining cell by its four quadrants.
pub open spec fn first_packed_cell(count: int) -> int {
    (count + 2) / 3
}

/// Every cell lies inside the root and is no larger than it.
pub proof fn lemma_cell_within(root: PackingRect, j: nat)
    requires
        root.x + root.width <= u32::MAX,
        root.y + root.height <= u32::MAX,
    ensures
        root.x <= cell(root, j).x,
        root.y <= cell(root, j).y,
        cell(root, j).x + cell(root, j).width <= root.x + root.width,
        cell(root, j).y + cell(root, j).height <= root.y + root.height,
        cell(root, j).width <= root.width,
        cell(root, j).height <= root.height,
    decreases j,
{
    if j > 0 {
        lemma_cell_within(root, ((j - 1) / 4) as nat);
    }
}

/// Later cells are never larger than earlier ones.
pub proof fn lemma_cells_shrink(root: PackingRect, j: nat, k: nat)
    requires
        j <= k,
        root.x + root.width <= u32::MAX,
        root.y + root.height <= u32::MAX,
    ensures
        cell(root, k).width <= cell(root, j).width,
        cell(root, k).height <= cell(root, j).height,
    decreases k,
{
    if j == k {
    } else if j == 0 {
        lemma_cell_within(root, k);
    } else {
        let pj = ((j - 1) / 4) as nat;
        let pk = ((k - 1) / 4) as nat;
        lemma_cells_shrink(root, pj, pk);
    }
}

/// Splits a `width` x `height` atlas into `count` rectangles, one per
/// texture: the largest cell is split into its four quadrants, breadth
/// first, until more than `count` cells exist, and the first `count` cells
/// in that order are handed out. Breadth-first order already runs from the
/// largest cells to the smallest, so no further sorting is needed.
pub fn pack_rects(count: usize, atlas_width: u32, atlas_height: u32) -> (r: Vec<PackingRect>)
    ensures
        r@.len() == count,
        forall|i: int|
            0 <= i < count ==> #[trigger] r@[i] == cell(
                atlas_rect(atlas_width, atlas_height),
                (first_packed_cell(count as int) + i) as nat,
            ),
        forall|i: int, k: int|
            0 <= i <= k < count ==> r@[k].width <= r@[i].width && r@[k].height <= r@[i].height,
        forall|i: int|
            0 <= i < count ==> r@[i].x + r@[i].width <= atlas_width && r@[i].y + r@[i].height
                <= atlas_height,
{
    let ghost root = atlas_rect(atlas_width, atlas_height);
    let mut queue: VecDeque<PackingRect> = VecDeque::new();
    queue.push_back(PackingRect { x: 0, y: 0, width: atlas_width, height: atlas_height });
    let ghost mut splits: int = 0;
    proof {
        assert(queue@[0] == cell(root, 0));
    }
    while queue.len() <= count
        invariant
            queue@.len() == 3 * splits + 1,
            3 * splits <= count + 2,
            forall|k: int| 0 <= k < queue@.len() ==> #[trigger] queue@[k] == cell(root, (splits + k) as nat),
            root == atlas_rect(atlas_width, atlas_height),
        decreases count + 3 - queue@.len(),
    {
        let ghost before = queue@;
        let node = queue.pop_front().unwrap();
        proof {
            lemma_cell_within(root, splits as nat);
        }
        let half_width = node.width / 2;
        let half_height = node.height / 2;
        queue.push_back(PackingRect { x: node.x, y: node.y, width: half_width, height: half_height });
        queue.push_back(
            PackingRect { x: node.x + half_width, y: node.y, width: half_width, height: half_height },
        );
        queue.push_back(
            PackingRect { x: node.x, y: node.y + half_height, width: half_width, height: half_height },
        );
        queue.push_back(
            PackingRect {
                x: node.x + half_width,
                y: node.y + half_height,
                width: half_width,
                height: half_height,
            },
        );
        proof {
            let m = splits;
            assert forall|k: int| 0 <= k < queue@.len() implies #[trigger] queue@[k] == cell(
                root,
                (m + 1 + k) as nat,
            ) by {
                if k < 3 * m {
                    assert(queue@[k] == before[k + 1]);
                } else {
                    let j = (m + 1 + k) as nat;
                    assert((j - 1) / 4 == m);
                    assert(cell(root, j) == quadrant(cell(root, m as nat), (j - 1) % 4));
                }
            }
            splits = splits + 1;
        }
    }
    let mut result: Vec<PackingRect> = Vec::new();
    let mut i: usize = 0;
    proof {
        assert(splits == first_packed_cell(count as int));
    }
    while i < count
        invariant
            i <= count < queue@.len() + i,
            result@.len() == i,
            forall|k: int| 0 <= k < queue@.len() ==> #[trigger] queue@[k] == cell(root, (splits + i + k) as nat),
            forall|k: int| 0 <= k < i ==> #[trigger] result@[k] == cell(root, (splits + k) as nat),
            splits == first_packed_cell(count as int),
            splits >= 0,
        decreases count - i,
    {
        let rect = queue.pop_front().unwrap();
        result.push(rect);
        i = i + 1;
    }
    proof {
        assert forall|a: int, b: int| 0 <= a <= b < count implies result@[b].width
            <= result@[a].width && result@[b].height <= result@[a].height by {
            lemma_cells_shrink(root, (splits + a) as nat, (splits + b) as nat);
        }
        assert forall|a: int| 0 <= a < count implies result@[a].x + result@[a].width <= atlas_width
            && result@[a].y + result@[a].height <= atlas_height by {
            lemma_cell_within(root, (splits + a) as nat);
        }
    }
    result
}

} // verus!
