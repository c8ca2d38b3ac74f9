//! The data the parser produces: the file header, the primitives as read from the
//! file (parameters as `f32` bit patterns), the tree nodes and their primitives.
use crate::geometry::{GeometryKind, GeometryType};
use vstd::prelude::*;

verus! {

/// Output layout.
#[derive(Clone, Copy, Debug, PartialEq, Eq, Structural)]
pub enum OutputMode {
    /// One merged mesh per colour (geometry baked).
    Merged,
    /// Node per instance with shared meshes (shape dedup).
    Instanced,
    /// One mesh and node per component, no merge, no dedup.
    Standard,
}

/// The RVM `HEAD` block.
pub struct HeaderBlock {
    pub version: u32,
    pub info: String,
    pub note: String,
    pub date: String,
    pub user: String,
    pub encoding: String,
}

/// The fields of a header as plain values.
pub struct HeaderView {
    pub version: u32,
    pub info: Seq<char>,
    pub note: Seq<char>,
    pub date: Seq<char>,
    pub user: Seq<char>,
    pub encoding: Seq<char>,
}

impl HeaderBlock {
    pub open spec fn view(&self) -> HeaderView {
        HeaderView {
            version: self.version,
            info: self.info@,
            note: self.note@,
            date: self.date@,
            user: self.user@,
            encoding: self.encoding@,
        }
    }

    /// The header of a file that has none: version 0 and empty texts.
    pub fn empty() -> (h: HeaderBlock)
        ensures
            h.view() == empty_header(),
    {
        HeaderBlock {
            version: 0,
            info: String::new(),
            note: String::new(),
            date: String::new(),
            user: String::new(),
            encoding: String::new(),
        }
    }
}

/// Version 0 and empty texts.
pub open spec fn empty_header() -> HeaderView {
    HeaderView {
        version: 0,
        info: Seq::empty(),
        note: Seq::empty(),
        date: Seq::empty(),
        user: Seq::empty(),
        encoding: Seq::empty(),
    }
}

/// A contour of a facet polygon: the x, y, z bit patterns of its vertices, in order.
pub struct Contour {
    pub vertices: Vec<u32>,
}

/// A facet polygon: its contours.
pub struct Polygon {
    pub contours: Vec<Contour>,
}

impl Contour {
    pub open spec fn view(&self) -> Seq<u32> {
        self.vertices@
    }
}

impl Polygon {
    pub open spec fn view(&self) -> Seq<Seq<u32>> {
        self.contours@.map_values(|c: Contour| c.view())
    }
}

/// The facet polygons as plain values.
pub open spec fn polygons_view(p: Seq<Polygon>) -> Seq<Seq<Seq<u32>>> {
    p.map_values(|q: Polygon| q.view())
}

/// The parameters of a primitive as read from the file, each an `f32` bit pattern.
#[allow(inconsistent_fields)]
pub enum GeometryShape {
    Pyramid { bottom: [u32; 2], top: [u32; 2], offset: [u32; 2], height: u32 },
    Box { lengths: [u32; 3] },
    RectangularTorus { inner_radius: u32, outer_radius: u32, height: u32, angle: u32 },
    CircularTorus { offset: u32, radius: u32, angle: u32 },
    EllipticalDish { base_radius: u32, height: u32 },
    SphericalDish { base_radius: u32, height: u32 },
    Snout {
        offset: [u32; 2],
        bshear: [u32; 2],
        tshear: [u32; 2],
        radius_b: u32,
        radius_t: u32,
        height: u32,
    },
    Cylinder { radius: u32, height: u32 },
    Sphere { diameter: u32 },
    Line { a: u32, b: u32 },
    FacetGroup { polygons: Vec<Polygon> },
}

/// A shape as plain values: for a parametric kind its words in file order, for a
/// facet group its polygons.
pub enum ShapeView {
    Params(GeometryKind, Seq<u32>),
    Facets(Seq<Seq<Seq<u32>>>),
}

impl GeometryShape {
    pub open spec fn view(&self) -> ShapeView {
        match self {
            GeometryShape::Pyramid { bottom, top, offset, height } => ShapeView::Params(
                GeometryKind::Pyramid,
                seq![bottom[0], bottom[1], top[0], top[1], offset[0], offset[1], *height],
            ),
            GeometryShape::Box { lengths } => ShapeView::Params(GeometryKind::Box, seq![lengths[0], lengths[1], lengths[2]]),
            GeometryShape::RectangularTorus { inner_radius, outer_radius, height, angle } => ShapeView::Params(
                GeometryKind::RectangularTorus,
                seq![*inner_radius, *outer_radius, *height, *angle],
            ),
            GeometryShape::CircularTorus { offset, radius, angle } => ShapeView::Params(
                GeometryKind::CircularTorus,
                seq![*offset, *radius, *angle],
            ),
            GeometryShape::EllipticalDish { base_radius, height } => ShapeView::Params(
                GeometryKind::EllipticalDish,
                seq![*base_radius, *height],
            ),
            GeometryShape::SphericalDish { base_radius, height } => ShapeView::Params(
                GeometryKind::SphericalDish,
                seq![*base_radius, *height],
            ),
            GeometryShape::Snout { offset, bshear, tshear, radius_b, radius_t, height } => ShapeView::Params(
                GeometryKind::Snout,
                seq![*radius_b, *radius_t, *height, offset[0], offset[1], bshear[0], bshear[1], tshear[0], tshear[1]],
            ),
            GeometryShape::Cylinder { radius, height } => ShapeView::Params(GeometryKind::Cylinder, seq![*radius, *height]),
            GeometryShape::Sphere { diameter } => ShapeView::Params(GeometryKind::Sphere, seq![*diameter]),
            GeometryShape::Line { a, b } => ShapeView::Params(GeometryKind::Line, seq![*a, *b]),
            GeometryShape::FacetGroup { polygons } => ShapeView::Facets(polygons_view(polygons@)),
        }
    }

    /// The kind of this shape.
    pub open spec fn spec_kind(&self) -> GeometryKind {
        match self {
            GeometryShape::Pyramid { .. } => GeometryKind::Pyramid,
            GeometryShape::Box { .. } => GeometryKind::Box,
            GeometryShape::RectangularTorus { .. } => GeometryKind::RectangularTorus,
            GeometryShape::CircularTorus { .. } => GeometryKind::CircularTorus,
            GeometryShape::EllipticalDish { .. } => GeometryKind::EllipticalDish,
            GeometryShape::SphericalDish { .. } => GeometryKind::SphericalDish,
            GeometryShape::Snout { .. } => GeometryKind::Snout,
            GeometryShape::Cylinder { .. } => GeometryKind::Cylinder,
            GeometryShape::Sphere { .. } => GeometryKind::Sphere,
            GeometryShape::Line { .. } => GeometryKind::Line,
            GeometryShape::FacetGroup { .. } => GeometryKind::FacetGroup,
        }
    }

    /// The `GeometryKind` tag matching this shape variant.
    pub fn kind(&self) -> (k: GeometryKind)
        ensures
            k == self.spec_kind(),
    {
        match self {
            GeometryShape::Pyramid { .. } => GeometryKind::Pyramid,
            GeometryShape::Box { .. } => GeometryKind::Box,
            GeometryShape::RectangularTorus { .. } => GeometryKind::RectangularTorus,
            GeometryShape::CircularTorus { .. } => GeometryKind::CircularTorus,
            GeometryShape::EllipticalDish { .. } => GeometryKind::EllipticalDish,
            GeometryShape::SphericalDish { .. } => GeometryKind::SphericalDish,
            GeometryShape::Snout { .. } => GeometryKind::Snout,
            GeometryShape::Cylinder { .. } => GeometryKind::Cylinder,
            GeometryShape::Sphere { .. } => GeometryKind::Sphere,
            GeometryShape::Line { .. } => GeometryKind::Line,
            GeometryShape::FacetGroup { .. } => GeometryKind::FacetGroup,
        }
    }
}

/// A primitive chunk (`PRIM`, `OBST` or `INSU`) as read from the file.
pub struct PrimChunk {
    /// The chunk id (`PRIM`, `OBST` or `INSU`).
    pub chunk_type: u32,
    pub kind: GeometryKind,
    pub geo_type: GeometryType,
    /// The primitive's own opacity (100 for `PRIM`).
    pub opacity: u8,
    /// The column-major 3x4 placement, as `f32` bit patterns.
    pub matrix: [u32; 12],
    /// The local bounding box (min x, y, z, max x, y, z), as `f32` bit patterns.
    pub bbox: [u32; 6],
    pub shape: GeometryShape,
}

/// A primitive kept on a tree node. Its geometry lives with the caller, which names
/// it by `payload`; the node keeps what the tree logic needs.
#[derive(Clone, Copy)]
pub struct NodePrim {
    pub opacity: u8,
    pub geo_type: GeometryType,
    pub vertices_n: u32,
    pub triangles_n: u32,
    pub payload: u64,
}

/// A node of the RVM tree (one container, or one part of a container split by role).
pub struct MetaNode {
    pub id: u32,
    pub parent_id: u32,
    pub name: String,
    /// The resolved `0x00RRGGBB` colour of the container's material.
    pub material_id: u32,
    /// First index of this node in its merged mesh (set by the merged writer).
    pub start: u32,
    /// Number of indices of this node in its merged mesh (set by the merged writer).
    pub count: u32,
    pub opacity: u8,
    pub version: u8,
    /// `0xAARRGGBB`: the material colour with the opacity as alpha.
    pub color_with_alpha: u32,
    pub primitives: Vec<NodePrim>,
}

/// A node as plain values.
pub struct MetaNodeView {
    pub id: u32,
    pub parent_id: u32,
    pub name: Seq<char>,
    pub material_id: u32,
    pub start: u32,
    pub count: u32,
    pub opacity: u8,
    pub version: u8,
    pub color_with_alpha: u32,
    pub primitives: Seq<NodePrim>,
}

impl MetaNode {
    pub open spec fn view(&self) -> MetaNodeView {
        MetaNodeView {
            id: self.id,
            parent_id: self.parent_id,
            name: self.name@,
            material_id: self.material_id,
            start: self.start,
            count: self.count,
            opacity: self.opacity,
            version: self.version,
            color_with_alpha: self.color_with_alpha,
            primitives: self.primitives@,
        }
    }

    /// The node that stands for "no node": every field zero or empty.
    pub fn empty() -> (n: MetaNode)
        ensures
            n.view() == empty_node(),
    {
        MetaNode {
            id: 0,
            parent_id: 0,
            name: String::new(),
            material_id: 0,
            start: 0,
            count: 0,
            opacity: 0,
            version: 0,
            color_with_alpha: 0,
            primitives: Vec::new(),
        }
    }
}

/// Every field zero or empty.
pub open spec fn empty_node() -> MetaNodeView {
    MetaNodeView {
        id: 0,
        parent_id: 0,
        name: Seq::empty(),
        material_id: 0,
        start: 0,
        count: 0,
        opacity: 0,
        version: 0,
        color_with_alpha: 0,
        primitives: Seq::empty(),
    }
}

/// The views of a list of nodes.
pub open spec fn nodes_view(v: Seq<MetaNode>) -> Seq<MetaNodeView> {
    v.map_values(|n: MetaNode| n.view())
}

} // verus!
