//! Topologies: the shapes in which a group of nodes can be linked together.

use vstd::prelude::*;

verus! {

/// The way in which nodes are connected to each other.
#[derive(Clone, Copy, Debug, PartialEq, Eq, Structural)]
#[non_exhaustive]
pub enum Topology {
    /// Each node - except the last one - connects to the next one in a linear fashion.
    Line,
    /// Like [`Topology::Line`], but the last node connects to the first one, forming a ring.
    Ring,
    /// All the nodes become connected to one another, forming a full mesh.
    Mesh,
    /// The first node is the central one (the hub); all the other nodes connect to it.
    Star,
    /// Nodes are connected in a 2D grid lattice.
    /// The number of nodes must equal `width * height`.
    Grid {
        /// The width of the grid.
        width: usize,
        /// The height of the grid.
        height: usize,
    },
    /// The relationships between the nodes form a binary tree.
    Tree,
    /// Each node connects to a specific number of unique pseudo-random peers, picked by a
    /// deterministic mixer seeded by `seed`.
    Random {
        /// The number of connections each node initiates.
        degree: usize,
        /// A randomness seed for reproducibility.
        seed: u64,
    },
}

/// The reasons for which a set of nodes cannot be linked in a given topology.
#[derive(Clone, Copy, Debug, PartialEq, Eq, Structural)]
pub enum TopologyError {
    /// Fewer than two nodes were provided.
    TooFewNodes,
    /// The dimensions of a grid do not match the number of nodes.
    GridMismatch {
        /// The width of the grid.
        width: usize,
        /// The height of the grid.
        height: usize,
        /// The number of nodes.
        nodes: usize,
    },
    /// The degree of a random topology is not smaller than the number of nodes.
    DegreeTooHigh,
}

/// A link from the node at the first index to the node at the second one; the first node
/// initiates the connection.
pub type Link = (usize, usize);

/// The number of connections that a topology yields over `n` nodes, counting each link once
/// on either side.
pub open spec fn expected_connections(topology: Topology, n: int) -> int {
    if n == 0 {
        0
    } else {
        match topology {
            Topology::Line => (n - 1) * 2,
            Topology::Ring => n * 2,
            Topology::Mesh => (n - 1) * n,
            Topology::Star => (n - 1) * 2,
            Topology::Grid { width, height } => ((width * height) * 2 - width - height) * 2,
            Topology::Tree => (n - 1) * 2,
            Topology::Random { degree, seed: _ } => n * degree * 2,
        }
    }
}

/// Every intermediate value of [`Topology::num_expected_connections`] fits in a `usize`
/// (and never drops below zero).
pub open spec fn expected_connections_fit(topology: Topology, n: int) -> bool {
    n == 0 || match topology {
        Topology::Line | Topology::Star | Topology::Tree => (n - 1) * 2 <= usize::MAX,
        Topology::Ring => n * 2 <= usize::MAX,
        Topology::Mesh => (n - 1) * n <= usize::MAX,
        Topology::Grid { width, height } => {
            &&& (width * height) * 2 <= usize::MAX
            &&& (width * height) * 2 - width - height >= 0
            &&& ((width * height) * 2 - width - height) * 2 <= usize::MAX
        },
        Topology::Random { degree, seed: _ } => n * degree * 2 <= usize::MAX,
    }
}


/// The links of a line over `n` nodes: each node but the last one connects to the next one.
pub open spec fn line_links(n: nat) -> Seq<Link> {
    Seq::new((n - 1) as nat, |k: int| (k as usize, (k + 1) as usize))
}

/// The links of a star over `n` nodes: every node but the first one connects to the first one.
pub open spec fn star_links(n: nat) -> Seq<Link> {
    Seq::new((n - 1) as nat, |k: int| ((k + 1) as usize, 0usize))
}

/// The links that node `i` of a mesh over `n` nodes initiates: one to each node after it.
pub open spec fn mesh_row(n: nat, i: nat) -> Seq<Link> {
    Seq::new((n - i - 1) as nat, |k: int| (i as usize, (i + 1 + k) as usize))
}

/// The links that the first `i` nodes of a mesh over `n` nodes initiate.
pub open spec fn mesh_links(n: nat, i: nat) -> Seq<Link>
    decreases i,
{
    if i == 0 {
        seq![]
    } else {
        mesh_links(n, (i - 1) as nat) + mesh_row(n, (i - 1) as nat)
    }
}

/// The links that node `i` of a binary tree over `n` nodes initiates: one to each of its
/// children `2i + 1` and `2i + 2` that exist.
pub open spec fn tree_node_links(n: nat, i: nat) -> Seq<Link> {
    let left: Seq<Link> = if 2 * i + 1 < n {
        seq![(i as usize, (2 * i + 1) as usize)]
    } else {
        seq![]
    };
    let right: Seq<Link> = if 2 * i + 2 < n {
        seq![(i as usize, (2 * i + 2) as usize)]
    } else {
        seq![]
    };
    left + right
}

/// The links that the first `i` nodes of a binary tree over `n` nodes initiate.
pub open spec fn tree_links(n: nat, i: nat) -> Seq<Link>
    decreases i,
{
    if i == 0 {
        seq![]
    } else {
        tree_links(n, (i - 1) as nat) + tree_node_links(n, (i - 1) as nat)
    }
}

/// The links that the node in row `r` and column `c` of a `w` x `h` grid initiates: one to
/// its right neighbour and one to the neighbour below it, where these exist. Nodes are
/// numbered row by row.
pub open spec fn grid_cell_links(w: nat, h: nat, r: nat, c: nat) -> Seq<Link> {
    let i = r * w + c;
    let right: Seq<Link> = if c + 1 < w {
        seq![(i as usize, (i + 1) as usize)]
    } else {
        seq![]
    };
    let down: Seq<Link> = if r + 1 < h {
        seq![(i as usize, (i + w) as usize)]
    } else {
        seq![]
    };
    right + down
}

/// The links that the first `c` nodes of row `r` of a `w` x `h` grid initiate.
pub open spec fn grid_row_links(w: nat, h: nat, r: nat, c: nat) -> Seq<Link>
    decreases c,
{
    if c == 0 {
        seq![]
    } else {
        grid_row_links(w, h, r, (c - 1) as nat) + grid_cell_links(w, h, r, (c - 1) as nat)
    }
}

/// The links that the nodes of the first `r` rows of a `w` x `h` grid initiate.
pub open spec fn grid_links(w: nat, h: nat, r: nat) -> Seq<Link>
    decreases r,
{
    if r == 0 {
        seq![]
    } else {
        grid_links(w, h, (r - 1) as nat) + grid_row_links(w, h, (r - 1) as nat, w)
    }
}

/// The mixing constant of the pseudo-random peer picker.
pub const MIX_MULTIPLIER: u64 = 0x517cc1b727220a95;

/// The peer that the pseudo-random picker proposes to node `node` at attempt `attempt`.
pub open spec fn random_pick(node: usize, seed: u64, attempt: u64, count: usize) -> usize {
    let x0 = vstd::wrapping::u64_specs::wrapping_mul(
        vstd::wrapping::u64_specs::wrapping_add(
            vstd::wrapping::u64_specs::wrapping_add(node as u64, seed),
            attempt,
        ),
        MIX_MULTIPLIER,
    );
    let x = x0 ^ (x0 >> 32u64);
    ((x as usize) % count) as usize
}

/// The peers that node `node` has picked after `attempts` attempts: each attempt's proposal is
/// kept when fewer than `degree` peers have been picked so far, it is not the node itself and
/// it has not been picked before.
pub open spec fn random_picks(node: usize, count: usize, seed: u64, degree: usize, attempts: nat) -> Seq<usize>
    decreases attempts,
{
    if attempts == 0 {
        seq![]
    } else {
        let prev = random_picks(node, count, seed, degree, (attempts - 1) as nat);
        let t = random_pick(node, seed, attempts as u64, count);
        if prev.len() < degree && t != node && !prev.contains(t) {
            prev.push(t)
        } else {
            prev
        }
    }
}

/// The peers that node `node` of a random topology links to: those picked within the attempts
/// that a `u64` counter can number.
pub open spec fn random_targets(node: usize, count: usize, seed: u64, degree: usize) -> Seq<usize> {
    random_picks(node, count, seed, degree, u64::MAX as nat)
}

/// The links that node `i` of a random topology initiates.
pub open spec fn random_node_links(count: usize, seed: u64, degree: usize, i: nat) -> Seq<Link> {
    random_targets(i as usize, count, seed, degree).map_values(|t: usize| (i as usize, t))
}

/// The links that the first `i` nodes of a random topology initiate.
pub open spec fn random_links(count: usize, seed: u64, degree: usize, i: nat) -> Seq<Link>
    decreases i,
{
    if i == 0 {
        seq![]
    } else {
        random_links(count, seed, degree, (i - 1) as nat) + random_node_links(count, seed, degree, (i - 1) as nat)
    }
}

/// Why `n` nodes cannot be linked in the given topology, if they cannot.
pub open spec fn links_error(topology: Topology, n: usize) -> Option<TopologyError> {
    if n < 2 {
        Some(TopologyError::TooFewNodes)
    } else {
        match topology {
            Topology::Grid { width, height } => if width * height != n {
                Some(TopologyError::GridMismatch { width, height, nodes: n })
            } else {
                None
            },
            Topology::Random { degree, seed: _ } => if degree >= n {
                Some(TopologyError::DegreeTooHigh)
            } else {
                None
            },
            _ => None,
        }
    }
}

/// The links, in the order in which they are established, that make `n` nodes form the given
/// topology.
pub open spec fn topology_links(topology: Topology, n: usize) -> Seq<Link> {
    match topology {
        Topology::Line => line_links(n as nat),
        Topology::Ring => line_links(n as nat).push(((n - 1) as usize, 0usize)),
        Topology::Mesh => mesh_links(n as nat, n as nat),
        Topology::Star => star_links(n as nat),
        Topology::Grid { width, height } => grid_links(width as nat, height as nat, height as nat),
        Topology::Tree => tree_links(n as nat, n as nat),
        Topology::Random { degree, seed } => random_links(n, seed, degree, n as nat),
    }
}


fn line_links_exec(count: usize) -> (links: Vec<Link>)
    requires
        count >= 1,
    ensures
        links@ == line_links(count as nat),
{
    let mut links: Vec<Link> = Vec::new();
    let mut i: usize = 0;
    while i < count - 1
        invariant
            count >= 1,
            i <= count - 1,
            links@ == Seq::new(i as nat, |k: int| (k as usize, (k + 1) as usize)),
        decreases count - 1 - i,
    {
        links.push((i, i + 1));
        i = i + 1;
        assert(links@ =~= Seq::new(i as nat, |k: int| (k as usize, (k + 1) as usize)));
    }
    links
}

fn star_links_exec(count: usize) -> (links: Vec<Link>)
    requires
        count >= 1,
    ensures
        links@ == star_links(count as nat),
{
    let mut links: Vec<Link> = Vec::new();
    let mut i: usize = 1;
    while i < count
        invariant
            1 <= i <= count,
            links@ == Seq::new((i - 1) as nat, |k: int| ((k + 1) as usize, 0usize)),
        decreases count - i,
    {
        links.push((i, 0));
        i = i + 1;
        assert(links@ =~= Seq::new((i - 1) as nat, |k: int| ((k + 1) as usize, 0usize)));
    }
    links
}

fn mesh_links_exec(count: usize) -> (links: Vec<Link>)
    ensures
        links@ == mesh_links(count as nat, count as nat),
{
    let mut links: Vec<Link> = Vec::new();
    let mut i: usize = 0;
    while i < count
        invariant
            i <= count,
            links@ == mesh_links(count as nat, i as nat),
        decreases count - i,
    {
        let ghost before = links@;
        let mut j: usize = i + 1;
        while j < count
            invariant
                i < count,
                i + 1 <= j <= count,
                links@ == before + mesh_row(count as nat, i as nat).take(j - i - 1),
            decreases count - j,
        {
            links.push((i, j));
            j = j + 1;
            assert(links@ =~= before + mesh_row(count as nat, i as nat).take(j - i - 1));
        }
        assert(mesh_row(count as nat, i as nat).take(j - i - 1) =~= mesh_row(count as nat, i as nat));
        i = i + 1;
    }
    links
}

fn tree_links_exec(count: usize) -> (links: Vec<Link>)
    ensures
        links@ == tree_links(count as nat, count as nat),
{
    let mut links: Vec<Link> = Vec::new();
    let mut i: usize = 0;
    while i < count
        invariant
            i <= count,
            links@ == tree_links(count as nat, i as nat),
        decreases count - i,
    {
        let ghost before = links@;
        let wide: u128 = i as u128;
        if 2 * wide + 1 < count as u128 {
            links.push((i, 2 * i + 1));
        }
        if 2 * wide + 2 < count as u128 {
            links.push((i, 2 * i + 2));
        }
        assert(links@ =~= before + tree_node_links(count as nat, i as nat));
        i = i + 1;
    }
    links
}


proof fn lemma_grid_index_bounds(w: int, h: int, r: int, c: int)
    requires
        0 <= r < h,
        0 <= c < w,
    ensures
        0 <= r * w + c < w * h,
        r + 1 < h ==> r * w + c + w < w * h,
        r * w + c + w == (r + 1) * w + c,
{
    assert(0 <= r * w) by (nonlinear_arith)
        requires
            0 <= r,
            0 <= c < w,
    ;
    assert(r * w + c < w * h) by (nonlinear_arith)
        requires
            0 <= r < h,
            0 <= c < w,
    ;
    assert(r + 1 < h ==> r * w + c + w < w * h) by (nonlinear_arith)
        requires
            0 <= r < h,
            0 <= c < w,
    ;
    assert(r * w + c + w == (r + 1) * w + c) by (nonlinear_arith);
}

fn grid_links_exec(width: usize, height: usize) -> (links: Vec<Link>)
    requires
        width * height <= usize::MAX,
    ensures
        links@ == grid_links(width as nat, height as nat, height as nat),
{
    let mut links: Vec<Link> = Vec::new();
    let mut row: usize = 0;
    while row < height
        invariant
            width * height <= usize::MAX,
            row <= height,
            links@ == grid_links(width as nat, height as nat, row as nat),
        decreases height - row,
    {
        let ghost before = links@;
        let mut col: usize = 0;
        while col < width
            invariant
                width * height <= usize::MAX,
                row < height,
                col <= width,
                links@ == before + grid_row_links(width as nat, height as nat, row as nat, col as nat),
            decreases width - col,
        {
            proof {
                lemma_grid_index_bounds(width as int, height as int, row as int, col as int);
            }
            let ghost mid = links@;
            let i = row * width + col;
            if col + 1 < width {
                links.push((i, i + 1));
            }
            if row + 1 < height {
                links.push((i, i + width));
            }
            assert(links@ =~= mid + grid_cell_links(width as nat, height as nat, row as nat, col as nat));
            col = col + 1;
            assert(links@ =~= before + grid_row_links(width as nat, height as nat, row as nat, col as nat));
        }
        row = row + 1;
    }
    links
}


proof fn lemma_random_picks_bounded(node: usize, count: usize, seed: u64, degree: usize, attempts: nat)
    ensures
        random_picks(node, count, seed, degree, attempts).len() <= degree,
    decreases attempts,
{
    if attempts > 0 {
        lemma_random_picks_bounded(node, count, seed, degree, (attempts - 1) as nat);
    }
}

proof fn lemma_random_picks_stable(node: usize, count: usize, seed: u64, degree: usize, a: nat, b: nat)
    requires
        a <= b,
        random_picks(node, count, seed, degree, a).len() == degree,
    ensures
        random_picks(node, count, seed, degree, b) == random_picks(node, count, seed, degree, a),
    decreases b - a,
{
    if a < b {
        lemma_random_picks_stable(node, count, seed, degree, a, (b - 1) as nat);
    }
}

fn contains_index(v: &Vec<usize>, x: usize) -> (res: bool)
    ensures
        res == v@.contains(x),
{
    let mut k: usize = 0;
    while k < v.len()
        invariant
            k <= v.len(),
            forall|m: int| 0 <= m < k ==> v@[m] != x,
        decreases v.len() - k,
    {
        if v[k] == x {
            return true;
        }
        k = k + 1;
    }
    false
}

fn random_targets_exec(node: usize, count: usize, seed: u64, degree: usize) -> (targets: Vec<usize>)
    requires
        count > 0,
    ensures
        targets@ == random_targets(node, count, seed, degree),
{
    let mut chosen: Vec<usize> = Vec::new();
    let mut attempt: u64 = 0;
    while chosen.len() < degree && attempt < u64::MAX
        invariant
            count > 0,
            chosen@ == random_picks(node, count, seed, degree, attempt as nat),
        decreases u64::MAX - attempt,
    {
        attempt = attempt + 1;
        let mut x: u64 = (node as u64).wrapping_add(seed).wrapping_add(attempt);
        x = x.wrapping_mul(MIX_MULTIPLIER);
        x = x ^ (x >> 32u64);
        let target: usize = (x as usize) % count;
        assert(target == random_pick(node, seed, attempt, count));
        if target != node && !contains_index(&chosen, target) {
            chosen.push(target);
        }
    }
    proof {
        if attempt < u64::MAX {
            lemma_random_picks_bounded(node, count, seed, degree, attempt as nat);
            lemma_random_picks_stable(node, count, seed, degree, attempt as nat, u64::MAX as nat);
        }
    }
    chosen
}

fn random_links_exec(count: usize, seed: u64, degree: usize) -> (links: Vec<Link>)
    requires
        count > 0,
    ensures
        links@ == random_links(count, seed, degree, count as nat),
{
    let mut links: Vec<Link> = Vec::new();
    let mut i: usize = 0;
    while i < count
        invariant
            count > 0,
            i <= count,
            links@ == random_links(count, seed, degree, i as nat),
        decreases count - i,
    {
        let ghost before = links@;
        let targets = random_targets_exec(i, count, seed, degree);
        let mut k: usize = 0;
        while k < targets.len()
            invariant
                i < count,
                k <= targets.len(),
                targets@ == random_targets(i, count, seed, degree),
                links@ == before + random_node_links(count, seed, degree, i as nat).take(k as int),
            decreases targets.len() - k,
        {
            links.push((i, targets[k]));
            k = k + 1;
            assert(links@ =~= before + random_node_links(count, seed, degree, i as nat).take(k as int));
        }
        assert(random_node_links(count, seed, degree, i as nat).take(k as int)
            =~= random_node_links(count, seed, degree, i as nat));
        i = i + 1;
    }
    links
}

impl Topology {
    /// Returns the expected total number of connections for the given number of nodes.
    pub fn num_expected_connections(&self, num_nodes: usize) -> (res: usize)
        requires
            expected_connections_fit(*self, num_nodes as int),
        ensures
            res == expected_connections(*self, num_nodes as int),
    {
        if num_nodes == 0 {
            return 0;
        }
        match self {
            Topology::Line => (num_nodes - 1) * 2,
            Topology::Ring => num_nodes * 2,
            Topology::Mesh => (num_nodes - 1) * num_nodes,
            Topology::Star => (num_nodes - 1) * 2,
            Topology::Grid { width, height } => {
                assert(*width * *height <= usize::MAX) by (nonlinear_arith)
                    requires
                        (*width * *height) * 2 <= usize::MAX,
                ;
                ((*width * *height) * 2 - *width - *height) * 2
            },
            Topology::Tree => (num_nodes - 1) * 2,
            Topology::Random { degree, seed: _ } => {
                assert(num_nodes * *degree <= usize::MAX) by (nonlinear_arith)
                    requires
                        num_nodes * *degree * 2 <= usize::MAX,
                ;
                num_nodes * *degree * 2
            },
        }
    }

    /// Whether a failure to establish one of the links stops the linking of the remaining ones:
    /// it does in every topology but a random one, which goes on with the other links.
    pub fn connect_errors_abort(&self) -> (res: bool)
        ensures
            res == !(*self is Random),
    {
        match self {
            Topology::Random { .. } => false,
            _ => true,
        }
    }

    /// Returns the links, in the order in which they are to be established, that make
    /// `num_nodes` nodes form this topology; each link names the index of the node that
    /// initiates the connection and the index of the node it connects to.
    pub fn links(&self, num_nodes: usize) -> (res: Result<Vec<Link>, TopologyError>)
        requires
            match *self {
                Topology::Grid { width, height } => width * height <= usize::MAX,
                _ => true,
            },
        ensures
            match res {
                Ok(links) => links_error(*self, num_nodes) is None && links@ == topology_links(
                    *self,
                    num_nodes,
                ),
                Err(e) => links_error(*self, num_nodes) == Some(e),
            },
    {
        let count = num_nodes;
        if count < 2 {
            return Err(TopologyError::TooFewNodes);
        }
        match self {
            Topology::Line => Ok(line_links_exec(count)),
            Topology::Ring => {
                let mut links = line_links_exec(count);
                links.push((count - 1, 0));
                Ok(links)
            },
            Topology::Mesh => Ok(mesh_links_exec(count)),
            Topology::Star => Ok(star_links_exec(count)),
            Topology::Grid { width, height } => {
                if *width * *height != count {
                    return Err(TopologyError::GridMismatch { width: *width, height: *height, nodes: count });
                }
                Ok(grid_links_exec(*width, *height))
            },
            Topology::Tree => Ok(tree_links_exec(count)),
            Topology::Random { degree, seed } => {
                if *degree >= count {
                    return Err(TopologyError::DegreeTooHigh);
                }
                Ok(random_links_exec(count, *seed, *degree))
            },
        }
    }
}

} // verus!

verus! {

proof fn lemma_mesh_links_len(n: nat, i: nat)
    requires
        i <= n,
    ensures
        mesh_links(n, i).len() * 2 == i * (2 * n - i - 1),
    decreases i,
{
    if i > 0 {
        let j = (i - 1) as nat;
        lemma_mesh_links_len(n, j);
        let li = mesh_links(n, i).len() as int;
        let lj = mesh_links(n, j).len() as int;
        assert(li == lj + (n - j - 1));
        assert(li * 2 == i * (2 * n - i - 1)) by (nonlinear_arith)
            requires
                li == lj + (n - j - 1),
                lj * 2 == j * (2 * n - j - 1),
                j == i - 1,
        ;
        assert(mesh_links(n, i).len() * 2 == i * (2 * n - i - 1));
    } else {
        assert(mesh_links(n, i).len() == 0);
        assert(i * (2 * n - i - 1) == 0);
    }
}

proof fn lemma_tree_links_len(n: nat, i: nat)
    requires
        n >= 1,
    ensures
        tree_links(n, i).len() == if 2 * i <= n - 1 { (2 * i) as int } else { (n - 1) as int },
    decreases i,
{
    if i > 0 {
        lemma_tree_links_len(n, (i - 1) as nat);
    }
}

proof fn lemma_grid_row_links_len(w: nat, h: nat, r: nat, c: nat)
    requires
        w >= 1,
        c <= w,
    ensures
        grid_row_links(w, h, r, c).len() == (if c <= w - 1 { c as int } else { w - 1 }) + (if r + 1 < h {
            c as int
        } else {
            0
        }),
    decreases c,
{
    if c > 0 {
        lemma_grid_row_links_len(w, h, r, (c - 1) as nat);
    }
}

proof fn lemma_grid_links_len(w: nat, h: nat, r: nat)
    requires
        w >= 1,
        h >= 1,
        r <= h,
    ensures
        grid_links(w, h, r).len() == r * (w - 1) + (if r <= h - 1 { r as int } else { h - 1 }) * w,
    decreases r,
{
    if r > 0 {
        let q = (r - 1) as nat;
        lemma_grid_links_len(w, h, q);
        lemma_grid_row_links_len(w, h, q, w);
        let lr = grid_links(w, h, r).len() as int;
        let lq = grid_links(w, h, q).len() as int;
        let row = grid_row_links(w, h, q, w).len() as int;
        assert(lr == lq + row);
        let m = if r <= h - 1 { r as int } else { h - 1 };
        let mq = if q <= h - 1 { q as int } else { h - 1 };
        assert(row == (w - 1) + (if q + 1 < h { w as int } else { 0 }));
        assert(m == mq + (if q + 1 < h { 1int } else { 0 }));
        assert(lr == r * (w - 1) + m * w) by (nonlinear_arith)
            requires
                lr == lq + row,
                lq == q * (w - 1) + mq * w,
                row == (w - 1) + (if q + 1 < h { w as int } else { 0 }),
                m == mq + (if q + 1 < h { 1int } else { 0 }),
                q == r - 1,
        ;
    } else {
        assert(r * (w - 1) == 0 && r * w == 0) by (nonlinear_arith)
            requires
                r == 0,
        ;
    }
}

proof fn lemma_random_links_len(count: usize, seed: u64, degree: usize, i: nat)
    requires
        i <= count,
        forall|k: int| 0 <= k < count ==> (#[trigger] random_targets(k as usize, count, seed, degree)).len() == degree,
    ensures
        random_links(count, seed, degree, i).len() == i * degree,
    decreases i,
{
    if i > 0 {
        lemma_random_links_len(count, seed, degree, (i - 1) as nat);
        let k = (i - 1) as int;
        assert(random_targets(k as usize, count, seed, degree).len() == degree);
        assert(random_node_links(count, seed, degree, k as nat).len() == degree);
        assert(random_links(count, seed, degree, i).len() == random_links(count, seed, degree, (i - 1) as nat).len() + degree);
        let li = random_links(count, seed, degree, i).len() as int;
        let lj = random_links(count, seed, degree, (i - 1) as nat).len() as int;
        assert(li == i * degree) by (nonlinear_arith)
            requires
                li == lj + degree,
                lj == (i - 1) * degree,
        ;
    } else {
        assert(i * degree == 0) by (nonlinear_arith)
            requires
                i == 0,
        ;
    }
}

/// Every node of a random topology picks its full `degree` of distinct peers.
pub open spec fn random_degree_reached(count: usize, seed: u64, degree: usize) -> bool {
    forall|k: int| 0 <= k < count ==> (#[trigger] random_targets(k as usize, count, seed, degree)).len() == degree
}

/// Linking nodes in a topology establishes exactly as many connections as
/// `Topology::num_expected_connections` reports, counting every link on both of its ends.
/// For a random topology this is stated where that count fits in a `usize`.
pub proof fn law_links_match_expected_connections(topology: Topology, n: usize)
    requires
        links_error(topology, n) is None,
        topology is Random ==> expected_connections_fit(topology, n as int),
    ensures
        topology_links(topology, n).len() * 2 == expected_connections(topology, n as int),
{
    match topology {
        Topology::Line => {},
        Topology::Ring => {},
        Topology::Mesh => {
            lemma_mesh_links_len(n as nat, n as nat);
            assert(n * (2 * n - n - 1) == (n - 1) * n) by (nonlinear_arith);
        },
        Topology::Star => {},
        Topology::Grid { width, height } => {
            assert(width >= 1 && height >= 1) by (nonlinear_arith)
                requires
                    width * height == n,
                    n >= 2,
            ;
            lemma_grid_links_len(width as nat, height as nat, height as nat);
            assert(height * (width - 1) + (height - 1) * width == (width * height) * 2 - width - height)
                by (nonlinear_arith);
        },
        Topology::Tree => {
            lemma_tree_links_len(n as nat, n as nat);
        },
        Topology::Random { degree, seed } => {
            if degree == 0 {
                assert forall|k: int| 0 <= k < n implies (#[trigger] random_targets(k as usize, n, seed, degree)).len() == degree by {
                    lemma_random_picks_bounded(k as usize, n, seed, degree, u64::MAX as nat);
                }
            } else {
                assert(n <= 0x8000_0000_0000_0000u64) by (nonlinear_arith)
                    requires
                        n * degree * 2 <= usize::MAX,
                        degree >= 1,
                        usize::MAX < 0x1_0000_0000_0000_0000,
                ;
                law_random_degree_reached(n, seed, degree);
            }
            lemma_random_links_len(n, seed, degree, n as nat);
            assert(n * degree * 2 == (n * degree) * 2) by (nonlinear_arith);
        },
    }
}

} // verus!

verus! {

/// Every link joins two distinct nodes among the first `n`.
pub open spec fn links_within(links: Seq<Link>, n: int) -> bool {
    forall|k: int|
        0 <= k < links.len() ==> {
            let link = #[trigger] links[k];
            &&& link.0 < n
            &&& link.1 < n
            &&& link.0 != link.1
        }
}

proof fn lemma_links_within_concat(a: Seq<Link>, b: Seq<Link>, n: int)
    requires
        links_within(a, n),
        links_within(b, n),
    ensures
        links_within(a + b, n),
{
    assert forall|k: int| 0 <= k < (a + b).len() implies {
        let link = #[trigger] (a + b)[k];
        &&& link.0 < n
        &&& link.1 < n
        &&& link.0 != link.1
    } by {
        if k < a.len() {
            assert((a + b)[k] == a[k]);
        } else {
            assert((a + b)[k] == b[k - a.len()]);
        }
    }
}

proof fn lemma_mesh_links_within(n: nat, i: nat)
    requires
        i <= n,
        n <= usize::MAX,
    ensures
        links_within(mesh_links(n, i), n as int),
    decreases i,
{
    if i > 0 {
        lemma_mesh_links_within(n, (i - 1) as nat);
        lemma_links_within_concat(mesh_links(n, (i - 1) as nat), mesh_row(n, (i - 1) as nat), n as int);
    }
}

proof fn lemma_tree_links_within(n: nat, i: nat)
    requires
        i <= n,
        n <= usize::MAX,
    ensures
        links_within(tree_links(n, i), n as int),
    decreases i,
{
    if i > 0 {
        lemma_tree_links_within(n, (i - 1) as nat);
        lemma_links_within_concat(tree_links(n, (i - 1) as nat), tree_node_links(n, (i - 1) as nat), n as int);
    }
}

proof fn lemma_grid_row_links_within(w: nat, h: nat, r: nat, c: nat)
    requires
        r < h,
        c <= w,
        w * h <= usize::MAX,
    ensures
        links_within(grid_row_links(w, h, r, c), (w * h) as int),
    decreases c,
{
    if c > 0 {
        let cc = (c - 1) as nat;
        lemma_grid_row_links_within(w, h, r, cc);
        lemma_grid_index_bounds(w as int, h as int, r as int, cc as int);
        if cc + 1 < w {
            lemma_grid_index_bounds(w as int, h as int, r as int, (cc + 1) as int);
        }
        lemma_links_within_concat(grid_row_links(w, h, r, cc), grid_cell_links(w, h, r, cc), (w * h) as int);
    }
}

proof fn lemma_grid_links_within(w: nat, h: nat, r: nat)
    requires
        r <= h,
        w * h <= usize::MAX,
    ensures
        links_within(grid_links(w, h, r), (w * h) as int),
    decreases r,
{
    if r > 0 {
        lemma_grid_links_within(w, h, (r - 1) as nat);
        lemma_grid_row_links_within(w, h, (r - 1) as nat, w);
        lemma_links_within_concat(grid_links(w, h, (r - 1) as nat), grid_row_links(w, h, (r - 1) as nat, w), (w * h) as int);
    }
}

proof fn lemma_random_picks_valid(node: usize, count: usize, seed: u64, degree: usize, attempts: nat)
    requires
        count > 0,
    ensures
        random_picks(node, count, seed, degree, attempts).no_duplicates(),
        forall|k: int| 0 <= k < random_picks(node, count, seed, degree, attempts).len() ==> {
            let t = #[trigger] random_picks(node, count, seed, degree, attempts)[k];
            t < count && t != node
        },
    decreases attempts,
{
    if attempts > 0 {
        lemma_random_picks_valid(node, count, seed, degree, (attempts - 1) as nat);
    }
}

proof fn lemma_random_links_within(count: usize, seed: u64, degree: usize, i: nat)
    requires
        i <= count,
        count > 0,
    ensures
        links_within(random_links(count, seed, degree, i), count as int),
    decreases i,
{
    if i > 0 {
        let j = (i - 1) as nat;
        lemma_random_links_within(count, seed, degree, j);
        lemma_random_picks_valid(j as usize, count, seed, degree, u64::MAX as nat);
        let row = random_node_links(count, seed, degree, j);
        assert forall|k: int| 0 <= k < row.len() implies {
            let link = #[trigger] row[k];
            &&& link.0 < count
            &&& link.1 < count
            &&& link.0 != link.1
        } by {
            let t = random_targets(j as usize, count, seed, degree)[k];
            assert(row[k] == (j as usize, t));
        }
        lemma_links_within_concat(random_links(count, seed, degree, j), row, count as int);
    }
}

/// Every link of a topology joins two distinct nodes among those being linked: no node ever
/// connects to itself or to a node that does not exist.
pub proof fn law_links_join_distinct_nodes(topology: Topology, n: usize)
    requires
        links_error(topology, n) is None,
    ensures
        links_within(topology_links(topology, n), n as int),
{
    match topology {
        Topology::Line => {},
        Topology::Ring => {},
        Topology::Mesh => lemma_mesh_links_within(n as nat, n as nat),
        Topology::Star => {},
        Topology::Grid { width, height } => {
            lemma_grid_links_within(width as nat, height as nat, height as nat);
        },
        Topology::Tree => lemma_tree_links_within(n as nat, n as nat),
        Topology::Random { degree, seed } => lemma_random_links_within(n, seed, degree, n as nat),
    }
}

/// In a random topology, every node links to distinct peers, never to itself, and to at most
/// `degree` of them.
pub proof fn law_random_peers_unique(count: usize, seed: u64, degree: usize, node: usize)
    requires
        count > 0,
    ensures
        random_targets(node, count, seed, degree).no_duplicates(),
        random_targets(node, count, seed, degree).len() <= degree,
        !random_targets(node, count, seed, degree).contains(node),
{
    lemma_random_picks_valid(node, count, seed, degree, u64::MAX as nat);
    lemma_random_picks_bounded(node, count, seed, degree, u64::MAX as nat);
}

} // verus!

verus! {

proof fn lemma_mesh_links_contain(n: nat, m: nat, i: nat, j: nat)
    requires
        i < j < n,
        i < m <= n,
        n <= usize::MAX,
    ensures
        mesh_links(n, m).contains((i as usize, j as usize)),
    decreases m,
{
    let prev = mesh_links(n, (m - 1) as nat);
    let row = mesh_row(n, (m - 1) as nat);
    if m - 1 == i {
        let k = j - i - 1;
        assert(row[k] == (i as usize, j as usize));
        assert(mesh_links(n, m)[prev.len() + k] == (i as usize, j as usize));
    } else {
        lemma_mesh_links_contain(n, (m - 1) as nat, i, j);
        let k = choose|k: int| 0 <= k < prev.len() && prev[k] == (i as usize, j as usize);
        assert(mesh_links(n, m)[k] == (i as usize, j as usize));
    }
}

/// In a mesh every pair of distinct nodes is linked: the node with the smaller index connects
/// to the node with the larger one.
pub proof fn law_mesh_links_every_pair(n: usize, i: usize, j: usize)
    requires
        i < j < n,
    ensures
        topology_links(Topology::Mesh, n).contains((i, j)),
{
    lemma_mesh_links_contain(n as nat, n as nat, i as nat, j as nat);
}

} // verus!

verus! {

/// The links are ordered by the node that initiates them, all of those nodes come before
/// `bound`, and no link occurs twice.
spec fn ordered_unique(links: Seq<Link>, bound: int) -> bool {
    &&& forall|k: int| 0 <= k < links.len() ==> (#[trigger] links[k]).0 < bound
    &&& forall|a: int, b: int| 0 <= a < b < links.len() ==> (#[trigger] links[a]).0 <= (#[trigger] links[b]).0
    &&& links.no_duplicates()
}

/// All links are initiated by node `source`, and no link occurs twice.
spec fn block_of(links: Seq<Link>, source: int) -> bool {
    &&& forall|k: int| 0 <= k < links.len() ==> (#[trigger] links[k]).0 == source
    &&& links.no_duplicates()
}

proof fn lemma_append_ordered(a: Seq<Link>, b: Seq<Link>, bound: int, lo: int, hi: int)
    requires
        ordered_unique(a, bound),
        ordered_unique(b, hi),
        forall|k: int| 0 <= k < b.len() ==> (#[trigger] b[k]).0 >= lo,
        bound <= lo,
        bound <= hi,
    ensures
        ordered_unique(a + b, hi),
{
    let c = a + b;
    assert forall|x: int, y: int| 0 <= x < y < c.len() implies (#[trigger] c[x]).0 <= (#[trigger] c[y]).0 by {
        if y < a.len() {
            assert(c[x] == a[x] && c[y] == a[y]);
        } else if x < a.len() {
            assert(c[x] == a[x] && c[y] == b[y - a.len()]);
        } else {
            assert(c[x] == b[x - a.len()] && c[y] == b[y - a.len()]);
        }
    }
    assert forall|x: int, y: int| 0 <= x < c.len() && 0 <= y < c.len() && x != y implies c[x] != c[y] by {
        if x < a.len() && y < a.len() {
            assert(c[x] == a[x] && c[y] == a[y]);
        } else if x < a.len() {
            assert(c[x] == a[x] && c[y] == b[y - a.len()]);
        } else if y < a.len() {
            assert(c[x] == b[x - a.len()] && c[y] == a[y]);
        } else {
            assert(c[x] == b[x - a.len()] && c[y] == b[y - a.len()]);
        }
    }
    assert forall|k: int| 0 <= k < c.len() implies (#[trigger] c[k]).0 < hi by {
        if k < a.len() {
            assert(c[k] == a[k]);
        } else {
            assert(c[k] == b[k - a.len()]);
        }
    }
}

proof fn lemma_append_block(a: Seq<Link>, b: Seq<Link>, bound: int, source: int)
    requires
        ordered_unique(a, bound),
        block_of(b, source),
        bound <= source,
    ensures
        ordered_unique(a + b, source + 1),
{
    lemma_append_ordered(a, b, bound, source, source + 1);
}

proof fn lemma_ordered_unique_weaken(a: Seq<Link>, bound: int, larger: int)
    requires
        ordered_unique(a, bound),
        bound <= larger,
    ensures
        ordered_unique(a, larger),
{
}

proof fn lemma_mesh_unique(n: nat, i: nat)
    requires
        i <= n,
        n <= usize::MAX,
    ensures
        ordered_unique(mesh_links(n, i), i as int),
    decreases i,
{
    if i > 0 {
        let j = (i - 1) as nat;
        lemma_mesh_unique(n, j);
        lemma_append_block(mesh_links(n, j), mesh_row(n, j), j as int, j as int);
    }
}

proof fn lemma_tree_unique(n: nat, i: nat)
    requires
        i <= n,
        n <= usize::MAX,
    ensures
        ordered_unique(tree_links(n, i), i as int),
    decreases i,
{
    if i > 0 {
        let j = (i - 1) as nat;
        lemma_tree_unique(n, j);
        lemma_append_block(tree_links(n, j), tree_node_links(n, j), j as int, j as int);
    }
}

proof fn lemma_grid_row_unique(w: nat, h: nat, r: nat, c: nat)
    requires
        r < h,
        c <= w,
        w * h <= usize::MAX,
    ensures
        forall|bound: int| #![trigger ordered_unique(grid_row_links(w, h, r, c), bound)]
            bound >= r * w + c ==> ordered_unique(grid_row_links(w, h, r, c), bound),
        forall|k: int| 0 <= k < grid_row_links(w, h, r, c).len() ==> (#[trigger] grid_row_links(w, h, r, c)[k]).0 >= r * w,
    decreases c,
{
    if c > 0 {
        let cc = (c - 1) as nat;
        lemma_grid_row_unique(w, h, r, cc);
        lemma_grid_index_bounds(w as int, h as int, r as int, cc as int);
        if cc + 1 < w {
            lemma_grid_index_bounds(w as int, h as int, r as int, (cc + 1) as int);
        }
        let src: int = (r * w + cc) as int;
        assert(0 <= r * w) by (nonlinear_arith)
            requires
                r >= 0,
                w >= 0,
        ;
        let prev = grid_row_links(w, h, r, cc);
        let cell = grid_cell_links(w, h, r, cc);
        assert(ordered_unique(prev, src));
        assert(block_of(cell, src));
        lemma_append_block(prev, cell, src, src);
        let whole = grid_row_links(w, h, r, c);
        assert forall|bound: int| #![trigger ordered_unique(whole, bound)] bound >= r * w + c implies ordered_unique(whole, bound) by {
            lemma_ordered_unique_weaken(whole, src + 1, bound);
        }
        assert forall|k: int| 0 <= k < whole.len() implies (#[trigger] whole[k]).0 >= r * w by {
            if k < prev.len() {
                assert(whole[k] == prev[k]);
            } else {
                assert(whole[k] == cell[k - prev.len()]);
            }
        }
    }
}

proof fn lemma_grid_unique(w: nat, h: nat, r: nat)
    requires
        r <= h,
        w * h <= usize::MAX,
    ensures
        ordered_unique(grid_links(w, h, r), (r * w) as int),
    decreases r,
{
    if r > 0 {
        let q = (r - 1) as nat;
        lemma_grid_unique(w, h, q);
        lemma_grid_row_unique(w, h, q, w);
        let a = grid_links(w, h, q);
        let b = grid_row_links(w, h, q, w);
        assert(q * w + w == r * w) by (nonlinear_arith)
            requires
                q == r - 1,
        ;
        assert(ordered_unique(b, (q * w + w) as int));
        assert(q * w <= r * w) by (nonlinear_arith)
            requires
                q * w + w == r * w,
                w >= 0,
        ;
        lemma_append_ordered(a, b, (q * w) as int, (q * w) as int, (r * w) as int);
    } else {
        assert(r * w == 0) by (nonlinear_arith)
            requires
                r == 0,
        ;
    }
}

proof fn lemma_random_unique(count: usize, seed: u64, degree: usize, i: nat)
    requires
        i <= count,
        count > 0,
    ensures
        ordered_unique(random_links(count, seed, degree, i), i as int),
    decreases i,
{
    if i > 0 {
        let j = (i - 1) as nat;
        lemma_random_unique(count, seed, degree, j);
        lemma_random_picks_valid(j as usize, count, seed, degree, u64::MAX as nat);
        let targets = random_targets(j as usize, count, seed, degree);
        let row = random_node_links(count, seed, degree, j);
        assert forall|x: int, y: int| 0 <= x < row.len() && 0 <= y < row.len() && x != y implies row[x] != row[y] by {
            assert(row[x] == (j as usize, targets[x]));
            assert(row[y] == (j as usize, targets[y]));
        }
        assert forall|k: int| 0 <= k < row.len() implies (#[trigger] row[k]).0 == j as int by {
            assert(row[k] == (j as usize, targets[k]));
        }
        lemma_append_block(random_links(count, seed, degree, j), row, j as int, j as int);
    }
}

/// No link of a topology occurs twice, so no connection is attempted twice.
pub proof fn law_links_unique(topology: Topology, n: usize)
    requires
        links_error(topology, n) is None,
    ensures
        topology_links(topology, n).no_duplicates(),
{
    match topology {
        Topology::Line => {
            let l = line_links(n as nat);
            assert forall|x: int, y: int| 0 <= x < l.len() && 0 <= y < l.len() && x != y implies l[x] != l[y] by {
                assert(l[x].0 == x as usize && l[y].0 == y as usize);
            }
        },
        Topology::Ring => {
            let l = line_links(n as nat);
            let r = l.push(((n - 1) as usize, 0usize));
            assert forall|x: int, y: int| 0 <= x < r.len() && 0 <= y < r.len() && x != y implies r[x] != r[y] by {
                if x < l.len() {
                    assert(r[x] == l[x] && l[x].0 == x as usize);
                }
                if y < l.len() {
                    assert(r[y] == l[y] && l[y].0 == y as usize);
                }
            }
        },
        Topology::Mesh => lemma_mesh_unique(n as nat, n as nat),
        Topology::Star => {
            let l = star_links(n as nat);
            assert forall|x: int, y: int| 0 <= x < l.len() && 0 <= y < l.len() && x != y implies l[x] != l[y] by {
                assert(l[x].0 == (x + 1) as usize && l[y].0 == (y + 1) as usize);
            }
        },
        Topology::Grid { width, height } => lemma_grid_unique(width as nat, height as nat, height as nat),
        Topology::Tree => lemma_tree_unique(n as nat, n as nat),
        Topology::Random { degree, seed } => lemma_random_unique(n, seed, degree, n as nat),
    }
}

} // verus!

verus! {

/// The inverse of [`MIX_MULTIPLIER`] in the multiplication modulo 2^64.
spec fn mix_inverse() -> u64 {
    0x2040003d780970bdu64
}

spec fn xorshift(x: u64) -> u64 {
    x ^ (x >> 32u64)
}

proof fn lemma_xorshift_involution(x: u64)
    ensures
        xorshift(xorshift(x)) == x,
{
    assert((x ^ (x >> 32u64)) ^ ((x ^ (x >> 32u64)) >> 32u64) == x) by (bit_vector);
}

proof fn lemma_mix_inverse(x: u64)
    ensures
        vstd::wrapping::u64_specs::wrapping_mul(
            vstd::wrapping::u64_specs::wrapping_mul(x, mix_inverse()),
            MIX_MULTIPLIER,
        ) == x,
{
    let m: int = 0x1_0000_0000_0000_0000;
    let inv: int = mix_inverse() as int;
    let c: int = MIX_MULTIPLIER as int;
    let p: int = x as int * inv;
    vstd::arithmetic::div_mod::lemma_mul_mod_noop_left(p, c, m);
    vstd::arithmetic::mul::lemma_mul_is_associative(x as int, inv, c);
    assert((inv * c) % m == 1);
    vstd::arithmetic::div_mod::lemma_mul_mod_noop_right(x as int, inv * c, m);
    assert(x as int * 1 == x as int);
    vstd::arithmetic::div_mod::lemma_small_mod(x as nat, m as nat);
    assert(0 <= p % m < m) by {
        vstd::arithmetic::div_mod::lemma_mod_bound(p, m);
    }
}

/// The attempt at which the mixer produces the value `y`, before it is reduced to a node index.
spec fn attempt_for(node: usize, seed: u64, y: u64) -> u64 {
    let base = vstd::wrapping::u64_specs::wrapping_add(node as u64, seed);
    let m = vstd::wrapping::u64_specs::wrapping_mul(xorshift(y), mix_inverse());
    vstd::wrapping::u64_specs::wrapping_sub(m, base)
}

proof fn lemma_attempt_for(node: usize, seed: u64, y: u64, count: usize)
    ensures
        random_pick(node, seed, attempt_for(node, seed, y), count) == ((y as usize) % count) as usize,
{
    let base = vstd::wrapping::u64_specs::wrapping_add(node as u64, seed);
    let m = vstd::wrapping::u64_specs::wrapping_mul(xorshift(y), mix_inverse());
    let a = attempt_for(node, seed, y);
    assert(vstd::wrapping::u64_specs::wrapping_add(base, a) == m);
    lemma_mix_inverse(xorshift(y));
    lemma_xorshift_involution(y);
}

proof fn lemma_attempt_zero_unique(node: usize, seed: u64, y1: u64, y2: u64)
    requires
        attempt_for(node, seed, y1) == 0,
        attempt_for(node, seed, y2) == 0,
    ensures
        y1 == y2,
{
    let m1 = vstd::wrapping::u64_specs::wrapping_mul(xorshift(y1), mix_inverse());
    let m2 = vstd::wrapping::u64_specs::wrapping_mul(xorshift(y2), mix_inverse());
    assert(m1 == m2);
    lemma_mix_inverse(xorshift(y1));
    lemma_mix_inverse(xorshift(y2));
    lemma_xorshift_involution(y1);
    lemma_xorshift_involution(y2);
}

proof fn lemma_target_reachable(node: usize, count: usize, seed: u64, t: usize)
    requires
        t < count,
        count <= 0x8000_0000_0000_0000u64,
    ensures
        exists|a: u64| 1 <= a && #[trigger] random_pick(node, seed, a, count) == t,
{
    let y1: u64 = t as u64;
    let y2: u64 = if usize::BITS == 64 {
        (t + count) as u64
    } else {
        (t + 0x1_0000_0000) as u64
    };
    assert(y1 != y2);
    assert(((y1 as usize) % count) as usize == t) by {
        vstd::arithmetic::div_mod::lemma_small_mod(t as nat, count as nat);
    }
    assert(((y2 as usize) % count) as usize == t) by {
        if usize::BITS == 64 {
            assert(y2 as usize == t + count);
            assert((t + count) % (count as int) == t) by (nonlinear_arith)
                requires
                    0 <= t < count,
            ;
        } else {
            let tt = t;
            assert(tt < 0x1_0000_0000);
            assert(((tt as u64 + 0x1_0000_0000u64) as u64) as usize == tt) by (bit_vector)
                requires
                    usize::BITS == 32,
                    tt < 0x1_0000_0000,
            ;
            vstd::arithmetic::div_mod::lemma_small_mod(t as nat, count as nat);
        }
    }
    lemma_attempt_for(node, seed, y1, count);
    lemma_attempt_for(node, seed, y2, count);
    if attempt_for(node, seed, y1) == 0 && attempt_for(node, seed, y2) == 0 {
        lemma_attempt_zero_unique(node, seed, y1, y2);
    }
    if attempt_for(node, seed, y1) != 0 {
        assert(random_pick(node, seed, attempt_for(node, seed, y1), count) == t);
    } else {
        assert(random_pick(node, seed, attempt_for(node, seed, y2), count) == t);
    }
}

} // verus!

verus! {

proof fn lemma_random_picks_prefix(node: usize, count: usize, seed: u64, degree: usize, a: nat, b: nat)
    requires
        a <= b,
    ensures
        random_picks(node, count, seed, degree, a).len() <= random_picks(node, count, seed, degree, b).len(),
        forall|t: usize| #[trigger] random_picks(node, count, seed, degree, a).contains(t)
            ==> random_picks(node, count, seed, degree, b).contains(t),
    decreases b - a,
{
    if a < b {
        let pa = random_picks(node, count, seed, degree, a);
        let prev = random_picks(node, count, seed, degree, (b - 1) as nat);
        let cur = random_picks(node, count, seed, degree, b);
        lemma_random_picks_prefix(node, count, seed, degree, a, (b - 1) as nat);
        assert forall|t: usize| #[trigger] pa.contains(t) implies cur.contains(t) by {
            let i = choose|i: int| 0 <= i < prev.len() && prev[i] == t;
            assert(cur[i] == t);
        }
    }
}

proof fn lemma_random_picks_closed(node: usize, count: usize, seed: u64, degree: usize, attempts: nat, a: nat)
    requires
        1 <= a <= attempts,
        attempts <= u64::MAX,
        random_picks(node, count, seed, degree, attempts).len() < degree,
    ensures
        ({
            let t = random_pick(node, seed, a as u64, count);
            t == node || random_picks(node, count, seed, degree, attempts).contains(t)
        }),
    decreases attempts,
{
    let prev = random_picks(node, count, seed, degree, (attempts - 1) as nat);
    lemma_random_picks_prefix(node, count, seed, degree, (attempts - 1) as nat, attempts);
    if a < attempts {
        lemma_random_picks_closed(node, count, seed, degree, (attempts - 1) as nat, a);
    } else {
        let t = random_pick(node, seed, a as u64, count);
        if t != node && !prev.contains(t) {
            assert(random_picks(node, count, seed, degree, attempts) == prev.push(t));
            assert(prev.push(t)[prev.len() as int] == t);
        }
    }
}

proof fn lemma_no_dup_covers_others(picks: Seq<usize>, node: usize, count: usize)
    requires
        node < count,
        picks.no_duplicates(),
        forall|t: usize| t < count && t != node ==> picks.contains(t),
    ensures
        picks.len() >= count - 1,
{
    let others = Seq::new((count - 1) as nat, |k: int| (if k < node { k } else { k + 1 }) as usize);
    assert(others.no_duplicates());
    assert(others.to_set().subset_of(picks.to_set())) by {
        assert forall|t: usize| others.to_set().contains(t) implies picks.to_set().contains(t) by {
            let k = choose|k: int| 0 <= k < others.len() && others[k] == t;
            assert(t < count && t != node);
        }
    }
    others.unique_seq_to_set();
    picks.unique_seq_to_set();
    vstd::seq_lib::seq_to_set_is_finite(picks);
    vstd::set_lib::lemma_len_subset(others.to_set(), picks.to_set());
}

/// Every node of a random topology over at most 2^63 nodes finds its full `degree` of
/// distinct peers: the mixer proposes every other node at some attempt that a `u64` counter
/// can number.
pub proof fn law_random_degree_reached(count: usize, seed: u64, degree: usize)
    requires
        degree < count,
        count <= 0x8000_0000_0000_0000u64,
    ensures
        random_degree_reached(count, seed, degree),
{
    assert forall|k: int| 0 <= k < count implies (#[trigger] random_targets(k as usize, count, seed, degree)).len() == degree by {
        let node = k as usize;
        let picks = random_targets(node, count, seed, degree);
        lemma_random_picks_bounded(node, count, seed, degree, u64::MAX as nat);
        lemma_random_picks_valid(node, count, seed, degree, u64::MAX as nat);
        if picks.len() < degree {
            assert forall|t: usize| t < count && t != node implies picks.contains(t) by {
                lemma_target_reachable(node, count, seed, t);
                let a = choose|a: u64| 1 <= a && #[trigger] random_pick(node, seed, a, count) == t;
                lemma_random_picks_closed(node, count, seed, degree, u64::MAX as nat, a as nat);
            }
            lemma_no_dup_covers_others(picks, node, count);
        }
    }
}

} // verus!

verus! {

/// A random topology over `n` nodes is accepted exactly when there are at least two nodes and
/// the degree is below `n`: every degree up to `n - 1`, where each node links to all the others,
/// is allowed. Over at most 2^63 nodes, each accepted node initiates `degree` links, so
/// `n * degree` links are produced; with degree `n - 1` that is `n * (n - 1)`.
pub proof fn law_random_degree_below_node_count_accepted(degree: usize, seed: u64, n: usize)
    ensures
        links_error(Topology::Random { degree, seed }, n) is None <==> (2 <= n && degree < n),
        2 <= n && degree < n ==> links_error(Topology::Random { degree, seed }, n) is None,
        n < 2 ==> links_error(Topology::Random { degree, seed }, n) == Some(TopologyError::TooFewNodes),
        2 <= n && degree >= n ==> links_error(Topology::Random { degree, seed }, n) == Some(
            TopologyError::DegreeTooHigh,
        ),
        2 <= n && degree < n && n <= 0x8000_0000_0000_0000u64 ==> topology_links(
            Topology::Random { degree, seed },
            n,
        ).len() == n * degree,
        2 <= n && degree + 1 == n && n <= 0x8000_0000_0000_0000u64 ==> topology_links(
            Topology::Random { degree, seed },
            n,
        ).len() == n * (n - 1),
{
    if 2 <= n && degree < n && n <= 0x8000_0000_0000_0000u64 {
        law_random_degree_reached(n, seed, degree);
        lemma_random_links_len(n, seed, degree, n as nat);
    }
}

} // verus!

verus! {

/// Which node counts each topology accepts: fewer than two nodes are never linked; a grid needs
/// exactly `width * height` nodes and reports its dimensions and the node count otherwise; every
/// other topology but a random one links any two or more nodes.
pub proof fn law_accepted_node_counts(topology: Topology, n: usize)
    ensures
        n < 2 ==> links_error(topology, n) == Some(TopologyError::TooFewNodes),
        n >= 2 && !(topology is Grid) && !(topology is Random) ==> links_error(topology, n) is None,
        n >= 2 ==> match topology {
            Topology::Grid { width, height } => (links_error(topology, n) is None <==> width * height == n)
                && (width * height != n ==> links_error(topology, n) == Some(
                TopologyError::GridMismatch { width, height, nodes: n },
            )),
            _ => true,
        },
{
}

} // verus!
