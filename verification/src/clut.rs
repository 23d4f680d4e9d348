//! Colour tables: a four-dimensional grid of RGB nodes over CMYK.
//!
//! A table of `n` nodes per axis holds `n⁴` nodes of three bytes, K outermost
//! and then C, M and Y.

use crate::text::{decimal, push_decimal};
use vstd::prelude::*;
use vstd::string::*;

verus! {

/// Bytes of a table of `n` nodes per axis.
pub open spec fn clut_bytes(n: nat) -> nat {
    n * n * n * n * 3
}

/// Number of a node.
pub open spec fn node_number(n: nat, c: nat, m: nat, y: nat, k: nat) -> nat {
    ((k * n + c) * n + m) * n + y
}

/// Why a table is refused.
#[derive(Debug, Clone, Copy, PartialEq, Eq, Structural)]
pub enum ClutError {
    /// Fewer than two nodes per axis.
    Degenerate { grid_n: u32 },
    /// The size of the table does not fit an address.
    Overflow { grid_n: u32 },
    /// The table and the grid disagree.
    Length { got: usize, grid_n: u32, expected: usize },
}

impl ClutError {
    pub open spec fn text(self) -> Seq<char> {
        match self {
            ClutError::Degenerate { grid_n } => "icc_cmyk_to_rgb_cpu: grid_n must be ≥ 2, got "@
                + decimal(grid_n as nat),
            ClutError::Overflow { grid_n } => "grid_n("@ + decimal(grid_n as nat)
                + ")^4*3 overflows usize — grid_n must be ≤ 255"@,
            ClutError::Length { got, grid_n, expected } => "CLUT table length "@ + decimal(
                got as nat,
            ) + " ≠ grid_n("@ + decimal(grid_n as nat) + ")^4*3="@ + decimal(expected as nat),
        }
    }

    /// The error as a sentence.
    pub fn message(&self) -> (s: String)
        ensures
            s@ == self.text(),
    {
        match self {
            ClutError::Degenerate { grid_n } => {
                let mut s = String::from_str("icc_cmyk_to_rgb_cpu: grid_n must be ≥ 2, got ");
                push_decimal(&mut s, *grid_n as u64);
                s
            },
            ClutError::Overflow { grid_n } => {
                let mut s = String::from_str("grid_n(");
                push_decimal(&mut s, *grid_n as u64);
                s.append(")^4*3 overflows usize — grid_n must be ≤ 255");
                s
            },
            ClutError::Length { got, grid_n, expected } => {
                let mut s = String::from_str("CLUT table length ");
                push_decimal(&mut s, *got as u64);
                s.append(" ≠ grid_n(");
                push_decimal(&mut s, *grid_n as u64);
                s.append(")^4*3=");
                push_decimal(&mut s, *expected as u64);
                s
            },
        }
    }
}

/// The next node on an axis of `n`; the last one is its own neighbour.
pub open spec fn next_on_axis(n: nat, i: nat) -> nat {
    if i + 1 < n {
        i + 1
    } else {
        i
    }
}

/// A colour table whose size and grid agree.
pub struct Clut<'a> {
    table: &'a [u8],
    nodes: usize,
}

impl<'a> View for Clut<'a> {
    type V = Seq<u8>;

    closed spec fn view(&self) -> Seq<u8> {
        self.table@
    }
}

impl<'a> Clut<'a> {
    /// Nodes per axis.
    pub closed spec fn n(&self) -> nat {
        self.nodes as nat
    }

    pub open spec fn wf(&self) -> bool {
        self.n() >= 2 && self@.len() == clut_bytes(self.n()) && self@.len() <= usize::MAX
    }

    /// A table of `grid_n` nodes per axis.
    pub fn new(table: &'a [u8], grid_n: u32) -> (r: Result<Clut<'a>, ClutError>)
        ensures
            if grid_n < 2 {
                r == Err::<Clut<'a>, ClutError>(ClutError::Degenerate { grid_n })
            } else if clut_bytes(grid_n as nat) > usize::MAX {
                r == Err::<Clut<'a>, ClutError>(ClutError::Overflow { grid_n })
            } else if table@.len() != clut_bytes(grid_n as nat) {
                r == Err::<Clut<'a>, ClutError>(
                    ClutError::Length {
                        got: table@.len() as usize,
                        grid_n,
                        expected: clut_bytes(grid_n as nat) as usize,
                    },
                )
            } else {
                r matches Ok(clut) && clut.wf() && clut@ == table@ && clut.n() == grid_n
            },
    {
        assert(table.len() == table@.len());
        if grid_n < 2 {
            return Err(ClutError::Degenerate { grid_n });
        }
        let n: usize = grid_n as usize;
        let expected: usize = match expected_len(n) {
            None => {
                return Err(ClutError::Overflow { grid_n });
            },
            Some(v) => v,
        };
        if table.len() != expected {
            return Err(ClutError::Length { got: table.len(), grid_n, expected });
        }
        Ok(Clut { table, nodes: n })
    }

    /// The colour of a node.
    pub fn node(&self, c: usize, m: usize, y: usize, k: usize) -> (rgb: (u8, u8, u8))
        requires
            self.wf(),
            c < self.n(),
            m < self.n(),
            y < self.n(),
            k < self.n(),
        ensures
            rgb == ({
                let i = 3 * node_number(self.n(), c as nat, m as nat, y as nat, k as nat) as int;
                (self@[i], self@[i + 1], self@[i + 2])
            }),
    {
        let n: usize = self.nodes;
        proof {
            lemma_node_bounds(n as nat, c as nat, m as nat, y as nat, k as nat);
        }
        let plane: usize = k * n + c;
        let row: usize = plane * n + m;
        let i: usize = (row * n + y) * 3;
        (self.table[i], self.table[i + 1], self.table[i + 2])
    }

    /// The next node on an axis; the last one is its own neighbour.
    pub fn neighbour(&self, i: usize) -> (j: usize)
        requires
            self.wf(),
            i < self.n(),
        ensures
            j == next_on_axis(self.n(), i as nat),
    {
        if i < self.nodes - 1 {
            i + 1
        } else {
            i
        }
    }

    /// Nodes per axis.
    pub fn grid_n(&self) -> (n: usize)
        ensures
            n == self.n(),
    {
        self.nodes
    }
}

/// Bytes of a table of `n` nodes per axis, if they can be addressed.
fn expected_len(n: usize) -> (r: Option<usize>)
    requires
        n >= 2,
    ensures
        match r {
            Some(v) => v == clut_bytes(n as nat),
            None => clut_bytes(n as nat) > usize::MAX,
        },
{
    proof {
        let a = n as int;
        assert(a * a >= 0) by (nonlinear_arith);
        let b = a * a;
        assert(b * a >= b) by (nonlinear_arith)
            requires
                b >= 0,
                a >= 2,
        ;
        let c = b * a;
        assert(c * a >= c) by (nonlinear_arith)
            requires
                c >= 0,
                a >= 2,
        ;
    }
    let n2: usize = match n.checked_mul(n) {
        None => {
            return None;
        },
        Some(v) => v,
    };
    let n3: usize = match n2.checked_mul(n) {
        None => {
            return None;
        },
        Some(v) => v,
    };
    let n4: usize = match n3.checked_mul(n) {
        None => {
            return None;
        },
        Some(v) => v,
    };
    n4.checked_mul(3)
}

/// A digit in front of `low` digits stays below the next power.
proof fn lemma_digit(n: int, high: int, low: int, top: int)
    requires
        n >= 1,
        0 <= high < top,
        0 <= low < n,
    ensures
        0 <= high * n,
        high * n + low < top * n,
{
    assert(0 <= high * n && high * n + n <= top * n) by (nonlinear_arith)
        requires
            n >= 1,
            0 <= high,
            high + 1 <= top,
    ;
}

proof fn lemma_node_bounds(n: nat, c: nat, m: nat, y: nat, k: nat)
    requires
        n >= 1,
        c < n,
        m < n,
        y < n,
        k < n,
    ensures
        k * n + c < n * n,
        (k * n + c) * n + m < n * n * n,
        node_number(n, c, m, y, k) < n * n * n * n,
        k * n <= k * n + c <= (k * n + c) * n <= (k * n + c) * n + m <= ((k * n + c) * n + m) * n
            <= node_number(n, c, m, y, k),
{
    let a = n as int;
    lemma_digit(a, k as int, c as int, a);
    let plane = (k * n + c) as int;
    lemma_digit(a, plane, m as int, a * a);
    let row = plane * a + m;
    lemma_digit(a, row, y as int, a * a * a);
    assert(plane <= plane * a) by (nonlinear_arith)
        requires
            plane >= 0,
            a >= 1,
    ;
    assert(row <= row * a) by (nonlinear_arith)
        requires
            row >= 0,
            a >= 1,
    ;
}

/// Every node lies in the table, and no two nodes share their bytes.
pub proof fn law_nodes_are_distinct(
    n: nat,
    c: nat,
    m: nat,
    y: nat,
    k: nat,
    c2: nat,
    m2: nat,
    y2: nat,
    k2: nat,
)
    requires
        n >= 1,
        c < n && m < n && y < n && k < n,
        c2 < n && m2 < n && y2 < n && k2 < n,
    ensures
        3 * node_number(n, c, m, y, k) + 3 <= clut_bytes(n),
        node_number(n, c, m, y, k) == node_number(n, c2, m2, y2, k2) ==> c == c2 && m == m2 && y
            == y2 && k == k2,
{
    lemma_node_bounds(n, c, m, y, k);
    if node_number(n, c, m, y, k) == node_number(n, c2, m2, y2, k2) {
        lemma_split(n, ((k * n + c) * n + m), y, ((k2 * n + c2) * n + m2), y2);
        lemma_split(n, k * n + c, m, k2 * n + c2, m2);
        lemma_split(n, k, c, k2, c2);
    }
}

/// Two numbers with the same digits are the same.
proof fn lemma_split(n: nat, a: nat, x: nat, b: nat, y: nat)
    requires
        x < n,
        y < n,
        a * n + x == b * n + y,
    ensures
        a == b,
        x == y,
{
    let (ai, bi, ni) = (a as int, b as int, n as int);
    if ai < bi {
        assert(ai * ni + ni <= bi * ni) by (nonlinear_arith)
            requires
                ai + 1 <= bi,
                ni >= 0,
        ;
    }
    if bi < ai {
        assert(bi * ni + ni <= ai * ni) by (nonlinear_arith)
            requires
                bi + 1 <= ai,
                ni >= 0,
        ;
    }
}

/// The nodes are laid out with yellow fastest, then magenta, cyan and black:
/// the next node on an axis is 1, `n`, `n²` or `n³` nodes further, and the
/// node without ink is the first.
pub proof fn law_yellow_runs_fastest(n: nat, c: nat, m: nat, y: nat, k: nat)
    ensures
        node_number(n, 0, 0, 0, 0) == 0,
        node_number(n, c, m, y + 1, k) == node_number(n, c, m, y, k) + 1,
        node_number(n, c, m + 1, y, k) == node_number(n, c, m, y, k) + n,
        node_number(n, c + 1, m, y, k) == node_number(n, c, m, y, k) + n * n,
        node_number(n, c, m, y, k + 1) == node_number(n, c, m, y, k) + n * n * n,
{
    assert(((0 * n + 0) * n + 0) * n + 0 == 0) by (nonlinear_arith);
    assert(((k * n + c) * n + (m + 1)) * n + y == ((k * n + c) * n + m) * n + y + n)
        by (nonlinear_arith);
    assert(((k * n + (c + 1)) * n + m) * n + y == ((k * n + c) * n + m) * n + y + n * n)
        by (nonlinear_arith);
    assert((((k + 1) * n + c) * n + m) * n + y == ((k * n + c) * n + m) * n + y + n * n * n)
        by (nonlinear_arith);
}

/// A table has three bytes for each of its nodes: one more than the number of
/// the last node, three times.
pub proof fn law_tables_hold_every_node(n: nat)
    requires
        n > 0,
    ensures
        clut_bytes(n) == 3 * (node_number(
            n,
            (n - 1) as nat,
            (n - 1) as nat,
            (n - 1) as nat,
            (n - 1) as nat,
        ) + 1),
{
    let a = n as int;
    let b = a - 1;
    assert(a * a * a * a * 3 == 3 * (((b * a + b) * a + b) * a + b + 1)) by (nonlinear_arith)
        requires
            b == a - 1,
    ;
}

/// A neighbour is a node, and the next one wherever there is one: no node
/// lies between, and only the last is its own.
pub proof fn law_neighbours_are_next(n: nat, i: nat, j: nat)
    requires
        i < n,
    ensures
        next_on_axis(n, i) < n,
        i < j < n ==> i < next_on_axis(n, i) <= j,
        next_on_axis(n, i) == i <==> i == n - 1,
{
}

} // verus!
