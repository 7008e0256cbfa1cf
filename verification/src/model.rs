//! The parts of a loaded STEP model.
//!
//! Geometry is carried along without being read: `M` is the mesh of a face,
//! `P` a point, `D` the original topology of a shell and `A` what else goes
//! with a shell (its colour, its placement, its tolerance).

use vstd::prelude::*;

use crate::parameter::StepMetadata;

verus! {

/// A boundary loop of a face: its outer boundary or a hole.
pub struct StepBoundaryLoop {
    pub edge_indices: Vec<usize>,
    pub is_outer: bool,
}

/// A tessellated edge curve.
pub struct StepEdge<P> {
    pub id: usize,
    pub curve_type: String,
    pub points: Vec<P>,
}

/// A face with its tessellated mesh.
pub struct StepFace<M> {
    pub id: usize,
    pub name: String,
    pub mesh: M,
    pub boundary_loops: Vec<StepBoundaryLoop>,
}

/// Whether a shell comes from a solid or stands alone.
pub enum StepTopology<D> {
    /// From a solid: watertight.
    Solid(D),
    /// A shell of its own: an open surface.
    Shell(D),
}

/// A shell with its faces and edge curves.
pub struct StepShell<M, P, D, A> {
    pub id: usize,
    pub name: String,
    pub faces: Vec<StepFace<M>>,
    pub curve_edges: Vec<StepEdge<P>>,
    pub topology: Option<StepTopology<D>>,
    /// The number of faces that could not be tessellated.
    pub failed_faces: usize,
    pub attributes: A,
}

/// All that a STEP file shows.
pub struct StepScene<M, P, D, A> {
    pub metadata: StepMetadata,
    pub shells: Vec<StepShell<M, P, D, A>>,
}

/// The edges of a boundary loop.
pub ghost struct LoopModel {
    pub edges: Seq<usize>,
    pub is_outer: bool,
}

pub ghost struct FaceModel {
    pub id: usize,
    pub name: Seq<char>,
    pub loops: Seq<LoopModel>,
}

pub ghost struct EdgeModel {
    pub id: usize,
    pub curve_type: Seq<char>,
    pub points: nat,
}

/// What the hierarchy reads of a shell.
pub ghost struct ShellModel {
    pub id: usize,
    pub name: Seq<char>,
    pub faces: Seq<FaceModel>,
    pub edges: Seq<EdgeModel>,
    pub failed_faces: usize,
}

impl View for StepBoundaryLoop {
    type V = LoopModel;

    open spec fn view(&self) -> LoopModel {
        LoopModel { edges: self.edge_indices@, is_outer: self.is_outer }
    }
}

impl<P> StepEdge<P> {
    pub open spec fn model(&self) -> EdgeModel {
        EdgeModel { id: self.id, curve_type: self.curve_type@, points: self.points@.len() }
    }
}

impl<M> StepFace<M> {
    pub open spec fn model(&self) -> FaceModel {
        FaceModel {
            id: self.id,
            name: self.name@,
            loops: self.boundary_loops@.map_values(|l: StepBoundaryLoop| l@),
        }
    }
}

impl<M, P, D, A> StepShell<M, P, D, A> {
    pub open spec fn model(&self) -> ShellModel {
        ShellModel {
            id: self.id,
            name: self.name@,
            faces: self.faces@.map_values(|f: StepFace<M>| f.model()),
            edges: self.curve_edges@.map_values(|e: StepEdge<P>| e.model()),
            failed_faces: self.failed_faces,
        }
    }

    pub open spec fn is_solid(&self) -> bool {
        self.topology matches Some(StepTopology::Solid(_))
    }

    /// Whether the shell belongs to a solid.
    pub fn has_solid_topology(&self) -> (r: bool)
        ensures
            r == self.is_solid(),
    {
        match &self.topology {
            Some(StepTopology::Solid(_)) => true,
            _ => false,
        }
    }
}

} // verus!
