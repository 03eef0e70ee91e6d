//! Discretization building blocks: element kinds, gradient schemes and the
//! cell connectivity that a discretization pipeline walks.
use vstd::prelude::*;

use crate::ast::Expr;

verus! {

/// Supported finite element types.
#[derive(Debug, Clone, Copy, PartialEq, Eq, Structural)]
pub enum ElementType {
    /// 3-node triangle (linear).
    Tri3,
    /// 6-node triangle (quadratic).
    Tri6,
    /// 4-node quadrilateral (bilinear).
    Quad4,
    /// 8-node quadrilateral (serendipity quadratic).
    Quad8,
    /// 4-node tetrahedron (linear).
    Tet4,
    /// 10-node tetrahedron (quadratic).
    Tet10,
    /// 8-node hexahedron (trilinear).
    Hex8,
    /// 20-node hexahedron (serendipity quadratic).
    Hex20,
    /// 27-node hexahedron (triquadratic).
    Hex27,
    /// 6-node wedge (pentahedron).
    Wedge6,
    /// 5-node pyramid.
    Pyramid5,
}

/// The terms of a governing equation, sorted by the scheme that
/// discretizes them.
pub struct TermClassification {
    /// Temporal derivative term (e.g. `ddt(rho * phi)`).
    pub temporal: Option<Expr>,
    /// Convective term (e.g. `div(rho * U * phi)`).
    pub convection: Option<Expr>,
    /// Diffusive term (e.g. `laplacian(gamma, phi)`).
    pub diffusion: Option<Expr>,
    /// Source terms (explicit contributions).
    pub sources: Vec<Expr>,
}

/// 3-node triangular element shape functions (linear, 2D).
#[derive(Debug, Clone)]
pub struct Tri3ShapeFn;

/// Green-Gauss cell-based gradient scheme.
#[derive(Debug, Clone)]
pub struct GreenGaussCellGradient;

/// Least-squares gradient scheme.
#[derive(Debug, Clone)]
pub struct LeastSquaresGradient;

/// Converts a parsed equation and a mesh into per-cell discrete equations.
#[derive(Debug, Clone, Copy)]
pub struct DiscretizationPipeline {
    _private: (),
}

impl DiscretizationPipeline {
    /// Create a new discretization pipeline.
    pub fn new() -> (p: Self) {
        DiscretizationPipeline { _private: () }
    }
}

/// A pipeline carries no settings: any two pipelines are the same value,
/// so `new` and `default` give the same pipeline.
pub proof fn law_pipelines_alike(a: DiscretizationPipeline, b: DiscretizationPipeline)
    ensures
        a == b,
{
}

impl Default for DiscretizationPipeline {
    fn default() -> (p: Self) {
        Self::new()
    }
}

/// The two cells a face separates: its owner and, for an interior face, the
/// neighbouring cell.
#[derive(Debug, Clone, Copy, PartialEq, Eq, Structural)]
pub struct FaceCells {
    pub owner_cell: usize,
    pub neighbor_cell: Option<usize>,
}

/// The cell across face `f` from `cell`, if `f` is an interior face that
/// leads to a different cell.
pub open spec fn across(f: FaceCells, cell: usize) -> Option<usize> {
    match f.neighbor_cell {
        Some(n) => {
            let other = if n == cell { f.owner_cell } else { n };
            if other != cell {
                Some(other)
            } else {
                None
            }
        },
        None => None,
    }
}

/// The neighbours of `cell` reached through the faces `face_ids`, in face
/// order, one entry per interior face.
pub open spec fn neighbors_through(face_ids: Seq<usize>, faces: Seq<FaceCells>, cell: usize) -> Seq<usize>
    decreases face_ids.len(),
{
    if face_ids.len() == 0 {
        Seq::empty()
    } else {
        let rest = neighbors_through(face_ids.drop_last(), faces, cell);
        match across(faces[face_ids.last() as int], cell) {
            Some(other) => rest.push(other),
            None => rest,
        }
    }
}

/// The neighbouring cells of `cell`, read from the faces that bound it.
///
/// Boundary faces contribute nothing; an interior face contributes the cell
/// on its other side, whichever side `cell` is on.
pub fn cell_neighbors(face_ids: &Vec<usize>, faces: &Vec<FaceCells>, cell: usize) -> (r: Vec<usize>)
    requires
        forall|i: int| 0 <= i < face_ids.len() ==> #[trigger] face_ids@[i] < faces.len(),
    ensures
        r@ == neighbors_through(face_ids@, faces@, cell),
{
    let mut r: Vec<usize> = Vec::new();
    let mut i: usize = 0;
    while i < face_ids.len()
        invariant
            0 <= i <= face_ids.len(),
            forall|k: int| 0 <= k < face_ids.len() ==> #[trigger] face_ids@[k] < faces.len(),
            r@ == neighbors_through(face_ids@.take(i as int), faces@, cell),
        decreases face_ids.len() - i,
    {
        let f = faces[face_ids[i]];
        proof {
            assert(face_ids@.take(i + 1).drop_last() =~= face_ids@.take(i as int));
            assert(face_ids@.take(i + 1).last() == face_ids@[i as int]);
        }
        match f.neighbor_cell {
            Some(n) => {
                let other = if n == cell {
                    f.owner_cell
                } else {
                    n
                };
                if other != cell {
                    r.push(other);
                }
            },
            None => {},
        }
        i = i + 1;
    }
    proof {
        assert(face_ids@.take(face_ids.len() as int) =~= face_ids@);
    }
    r
}

/// Every neighbour that `cell_neighbors` reports differs from the cell itself.
pub proof fn law_no_self_neighbor(face_ids: Seq<usize>, faces: Seq<FaceCells>, cell: usize)
    ensures
        forall|i: int|
            0 <= i < neighbors_through(face_ids, faces, cell).len() ==> #[trigger] neighbors_through(
                face_ids,
                faces,
                cell,
            )[i] != cell,
    decreases face_ids.len(),
{
    if face_ids.len() > 0 {
        law_no_self_neighbor(face_ids.drop_last(), faces, cell);
        let rest = neighbors_through(face_ids.drop_last(), faces, cell);
        assert(forall|i: int| 0 <= i < rest.len() ==> #[trigger] rest[i] != cell);
    }
}

} // verus!
