//! Mesh topology: element kinds, cells, named regions and the validation
//! that every mesh of this library has passed.
use vstd::prelude::*;

use crate::numbers::Decimal;

verus! {

pub type NodeId = usize;

pub type CellId = usize;

pub type FacetId = usize;

pub type FieldId = usize;

pub type MaterialId = usize;

pub type RegionId = usize;

/// The dimension of a geometric entity.
#[derive(Clone, Copy, Debug, PartialEq, Eq, Structural)]
pub enum EntityDimension {
    Point,
    Curve,
    Surface,
    Volume,
}

impl EntityDimension {
    /// The dimension as a number: 0 for points up to 3 for volumes.
    pub open spec fn dim(self) -> nat {
        match self {
            EntityDimension::Point => 0,
            EntityDimension::Curve => 1,
            EntityDimension::Surface => 2,
            EntityDimension::Volume => 3,
        }
    }

    /// The dimension as a number: 0 for points up to 3 for volumes.
    pub fn spatial_dimension(self) -> (d: usize)
        ensures
            d == self.dim(),
    {
        match self {
            EntityDimension::Point => 0,
            EntityDimension::Curve => 1,
            EntityDimension::Surface => 2,
            EntityDimension::Volume => 3,
        }
    }
}

/// The shape and order of a cell.
#[derive(Clone, Copy, Debug, PartialEq, Eq, Structural)]
pub enum ElementKind {
    Line2,
    Line3,
    Tri3,
    Tri6,
    Quad4,
    Quad8,
    Tet4,
    Tet10,
    Hex8,
    Hex20,
}

impl ElementKind {
    /// The number of nodes of a cell of this kind.
    pub open spec fn nodes_per_cell(self) -> nat {
        match self {
            ElementKind::Line2 => 2,
            ElementKind::Line3 => 3,
            ElementKind::Tri3 => 3,
            ElementKind::Tri6 => 6,
            ElementKind::Quad4 => 4,
            ElementKind::Quad8 => 8,
            ElementKind::Tet4 => 4,
            ElementKind::Tet10 => 10,
            ElementKind::Hex8 => 8,
            ElementKind::Hex20 => 20,
        }
    }

    /// The dimension of a cell of this kind.
    pub open spec fn dimension_of(self) -> EntityDimension {
        match self {
            ElementKind::Line2 | ElementKind::Line3 => EntityDimension::Curve,
            ElementKind::Tri3 | ElementKind::Tri6 | ElementKind::Quad4 | ElementKind::Quad8 => {
                EntityDimension::Surface
            },
            ElementKind::Tet4 | ElementKind::Tet10 | ElementKind::Hex8 | ElementKind::Hex20 => {
                EntityDimension::Volume
            },
        }
    }

    /// The number of nodes of a cell of this kind.
    pub fn node_count(self) -> (n: usize)
        ensures
            n == self.nodes_per_cell(),
    {
        match self {
            ElementKind::Line2 => 2,
            ElementKind::Line3 => 3,
            ElementKind::Tri3 => 3,
            ElementKind::Tri6 => 6,
            ElementKind::Quad4 => 4,
            ElementKind::Quad8 => 8,
            ElementKind::Tet4 => 4,
            ElementKind::Tet10 => 10,
            ElementKind::Hex8 => 8,
            ElementKind::Hex20 => 20,
        }
    }

    /// The dimension of a cell of this kind.
    pub fn entity_dimension(self) -> (d: EntityDimension)
        ensures
            d == self.dimension_of(),
    {
        match self {
            ElementKind::Line2 | ElementKind::Line3 => EntityDimension::Curve,
            ElementKind::Tri3 | ElementKind::Tri6 | ElementKind::Quad4 | ElementKind::Quad8 => {
                EntityDimension::Surface
            },
            ElementKind::Tet4 | ElementKind::Tet10 | ElementKind::Hex8 | ElementKind::Hex20 => {
                EntityDimension::Volume
            },
        }
    }
}

impl ElementKind {
    /// The shape of a cell of this kind, by its place among line (0),
    /// triangle (1), quadrilateral (2), tetrahedron (3) and hexahedron (4):
    /// by dimension, then by number of corners.
    pub open spec fn shape_rank(self) -> nat {
        match self {
            ElementKind::Line2 | ElementKind::Line3 => 0,
            ElementKind::Tri3 | ElementKind::Tri6 => 1,
            ElementKind::Quad4 | ElementKind::Quad8 => 2,
            ElementKind::Tet4 | ElementKind::Tet10 => 3,
            ElementKind::Hex8 | ElementKind::Hex20 => 4,
        }
    }

    /// Whether a cell of this kind has a node at the middle of each edge
    /// besides those at its corners.
    pub open spec fn is_quadratic(self) -> bool {
        match self {
            ElementKind::Line3 | ElementKind::Tri6 | ElementKind::Quad8 | ElementKind::Tet10
            | ElementKind::Hex20 => true,
            _ => false,
        }
    }
}

/// Two to the power `d`.
pub open spec fn two_to(d: nat) -> nat
    decreases d,
{
    if d == 0 {
        1
    } else {
        2 * two_to((d - 1) as nat)
    }
}

/// Whether the shape of rank `r` is a simplex: a line, triangle or
/// tetrahedron.
pub open spec fn is_simplex_shape(r: nat) -> bool {
    r == 0 || r == 1 || r == 3
}

/// The corners of a shape of dimension `d`: `d + 1` for a simplex, `2^d`
/// for a box.
pub open spec fn shape_corners(r: nat, d: nat) -> nat {
    if is_simplex_shape(r) {
        d + 1
    } else {
        two_to(d)
    }
}

/// The edges of a shape of dimension `d`: one per pair of corners of a
/// simplex, `d 2^(d-1)` for a box.
pub open spec fn shape_edges(r: nat, d: nat) -> nat {
    if is_simplex_shape(r) {
        ((d + 1) * d / 2) as nat
    } else {
        d * two_to((d - 1) as nat)
    }
}

/// The node count of a kind follows from its shape and order: a cell has a
/// node at each corner, and a quadratic one also one at each edge. Lines
/// are of dimension one, triangles and quadrilaterals of two, tetrahedra
/// and hexahedra of three.
pub proof fn law_node_count_of_shape(k: ElementKind)
    ensures
        k.dimension_of().dim() == (if k.shape_rank() == 0 {
            1nat
        } else if k.shape_rank() <= 2 {
            2nat
        } else {
            3nat
        }),
        k.nodes_per_cell() == shape_corners(k.shape_rank(), k.dimension_of().dim()) + (
        if k.is_quadratic() {
            shape_edges(k.shape_rank(), k.dimension_of().dim())
        } else {
            0
        }),
{
    reveal_with_fuel(two_to, 4);
    assert(two_to(0) == 1 && two_to(1) == 2 && two_to(2) == 4 && two_to(3) == 8);
    assert((1nat + 1) * 1 / 2 == 1 && (2nat + 1) * 2 / 2 == 3 && (3nat + 1) * 3 / 2 == 6)
        by (nonlinear_arith);
}

/// A kind is fixed by its shape and its order.
pub proof fn law_kind_by_shape_and_order(k1: ElementKind, k2: ElementKind)
    ensures
        k1.shape_rank() == k2.shape_rank() && k1.is_quadratic() == k2.is_quadratic() ==> k1 == k2,
        k1.shape_rank() <= 4,
{
}

/// A named group of entities that conditions and materials can target.
#[derive(Debug, PartialEq)]
pub struct Region {
    pub id: RegionId,
    pub name: String,
    pub dimension: EntityDimension,
}

impl Region {
    pub fn new(id: RegionId, name: String, dimension: EntityDimension) -> (r: Region)
        ensures
            r.id == id,
            r.name@ == name@,
            r.dimension == dimension,
    {
        Region { id, name, dimension }
    }

    /// A copy of this region.
    pub fn copy(&self) -> (r: Region)
        ensures
            r.id == self.id,
            r.name@ == self.name@,
            r.dimension == self.dimension,
    {
        Region { id: self.id, name: self.name.clone(), dimension: self.dimension }
    }
}

/// A cell of a mesh: its kind, its nodes and the region it belongs to.
#[derive(Debug, PartialEq)]
pub struct Cell {
    pub kind: ElementKind,
    pub nodes: Vec<NodeId>,
    pub region: Option<RegionId>,
}

impl Cell {
    pub fn new(kind: ElementKind, nodes: Vec<NodeId>) -> (c: Cell)
        ensures
            c.kind == kind,
            c.nodes@ == nodes@,
            c.region is None,
    {
        Cell { kind, nodes, region: None }
    }

    /// The same cell, placed in a region.
    pub fn with_region(self, region: RegionId) -> (c: Cell)
        ensures
            c.kind == self.kind,
            c.nodes@ == self.nodes@,
            c.region == Some(region),
    {
        Cell { kind: self.kind, nodes: self.nodes, region: Some(region) }
    }

    /// A copy of this cell.
    pub fn copy(&self) -> (c: Cell)
        ensures
            c.kind == self.kind,
            c.nodes@ == self.nodes@,
            c.region == self.region,
    {
        Cell { kind: self.kind, nodes: self.nodes.clone(), region: self.region }
    }
}

/// A point of the plane.
#[derive(Debug, PartialEq)]
pub struct Point2 {
    pub x: Decimal,
    pub y: Decimal,
}

impl Point2 {
    pub fn new(x: Decimal, y: Decimal) -> (p: Point2)
        ensures
            p.x@ == x@,
            p.y@ == y@,
    {
        Point2 { x, y }
    }

    /// A copy of this point.
    pub fn copy(&self) -> (p: Point2)
        ensures
            p.x@ == self.x@,
            p.y@ == self.y@,
    {
        Point2 { x: self.x.copy(), y: self.y.copy() }
    }
}

/// A point given by its coordinates.
#[derive(Debug, PartialEq)]
pub struct PointD {
    pub coords: Vec<Decimal>,
}

impl PointD {
    pub fn new(coords: Vec<Decimal>) -> (p: PointD)
        ensures
            p.coords@ == coords@,
    {
        PointD { coords }
    }
}

/// A linear triangle given by its three nodes.
#[derive(Clone, Copy, Debug, PartialEq, Eq)]
pub struct Tri3 {
    pub nodes: [NodeId; 3],
}

impl Tri3 {
    pub fn new(nodes: [NodeId; 3]) -> (t: Tri3)
        ensures
            t.nodes == nodes,
    {
        Tri3 { nodes }
    }
}

/// A cell by its kind, its node list and its region.
pub struct CellView {
    pub kind: ElementKind,
    pub nodes: Seq<NodeId>,
    pub region: Option<RegionId>,
}

impl View for Cell {
    type V = CellView;

    open spec fn view(&self) -> CellView {
        CellView { kind: self.kind, nodes: self.nodes@, region: self.region }
    }
}

/// The views of cells.
pub open spec fn cell_views(cs: Seq<Cell>) -> Seq<CellView> {
    cs.map_values(|c: Cell| c@)
}

/// The ids of regions.
pub open spec fn region_ids(rs: Seq<Region>) -> Seq<RegionId> {
    rs.map_values(|r: Region| r.id)
}

/// Why a collection of points, cells and regions is not a mesh.
#[derive(Clone, Copy, Debug, PartialEq, Eq, Structural)]
pub enum MeshError {
    /// A point has the wrong number of coordinates.
    InvalidPointDimension { point: usize, expected: usize, actual: usize },
    /// Two regions share an id.
    DuplicateRegionId { region: RegionId },
    /// A cell does not have the number of nodes its kind asks for.
    InvalidCellNodeCount { cell: CellId, expected: usize, actual: usize },
    /// A cell refers to a node that does not exist.
    CellNodeOutOfBounds { cell: CellId, node_count: usize },
    /// A cell lists the same node twice.
    DuplicateCellNode { cell: CellId },
    /// A cell is placed in a region that does not exist.
    UnknownCellRegion { cell: CellId, region: RegionId },
}

/// Some region of `regions` has the id `id`.
pub open spec fn has_region_id(regions: Seq<Region>, id: RegionId) -> bool {
    exists|i: int| 0 <= i < regions.len() && #[trigger] regions[i].id == id
}

/// Some node of the cell is not below `node_count`.
pub open spec fn has_node_out_of_bounds(nodes: Seq<NodeId>, node_count: nat) -> bool {
    exists|j: int| 0 <= j < nodes.len() && #[trigger] nodes[j] >= node_count
}

/// Some node occurs twice in `nodes`.
pub open spec fn has_repeated_node(nodes: Seq<NodeId>) -> bool {
    exists|j: int, k: int| 0 <= j < k < nodes.len() && #[trigger] nodes[j] == #[trigger] nodes[k]
}

/// What is wrong with the cell at `index`, if anything.
pub open spec fn cell_error(cell: Cell, index: int, node_count: nat, regions: Seq<Region>) -> Option<
    MeshError,
> {
    if cell.nodes@.len() != cell.kind.nodes_per_cell() {
        Some(
            MeshError::InvalidCellNodeCount {
                cell: index as usize,
                expected: cell.kind.nodes_per_cell() as usize,
                actual: cell.nodes@.len() as usize,
            },
        )
    } else if has_node_out_of_bounds(cell.nodes@, node_count) {
        Some(MeshError::CellNodeOutOfBounds { cell: index as usize, node_count: node_count as usize })
    } else if has_repeated_node(cell.nodes@) {
        Some(MeshError::DuplicateCellNode { cell: index as usize })
    } else if cell.region matches Some(r) && !has_region_id(regions, r) {
        Some(MeshError::UnknownCellRegion { cell: index as usize, region: cell.region->0 })
    } else {
        None
    }
}

/// The first problem among the cells, in order.
pub open spec fn cells_error(cells: Seq<Cell>, node_count: nat, regions: Seq<Region>) -> Option<
    MeshError,
>
    decreases cells.len(),
{
    if cells.len() == 0 {
        None
    } else {
        match cells_error(cells.drop_last(), node_count, regions) {
            Some(e) => Some(e),
            None => cell_error(cells.last(), cells.len() - 1, node_count, regions),
        }
    }
}

/// The first region, in order, whose id an earlier region already has.
pub open spec fn regions_error(regions: Seq<Region>) -> Option<MeshError>
    decreases regions.len(),
{
    if regions.len() == 0 {
        None
    } else {
        match regions_error(regions.drop_last()) {
            Some(e) => Some(e),
            None => if has_region_id(regions.drop_last(), regions.last().id) {
                Some(MeshError::DuplicateRegionId { region: regions.last().id })
            } else {
                None
            },
        }
    }
}

/// The first point, in order, without `dimension` coordinates.
pub open spec fn points_error(points: Seq<PointD>, dimension: nat) -> Option<MeshError>
    decreases points.len(),
{
    if points.len() == 0 {
        None
    } else {
        match points_error(points.drop_last(), dimension) {
            Some(e) => Some(e),
            None => if points.last().coords@.len() != dimension {
                Some(
                    MeshError::InvalidPointDimension {
                        point: (points.len() - 1) as usize,
                        expected: dimension as usize,
                        actual: points.last().coords@.len() as usize,
                    },
                )
            } else {
                None
            },
        }
    }
}

/// The first problem of a would-be mesh: points, then regions, then cells.
pub open spec fn topology_error(
    dimension: nat,
    points: Seq<PointD>,
    cells: Seq<Cell>,
    regions: Seq<Region>,
) -> Option<MeshError> {
    match points_error(points, dimension) {
        Some(e) => Some(e),
        None => match regions_error(regions) {
            Some(e) => Some(e),
            None => cells_error(cells, points.len(), regions),
        },
    }
}

/// What is wrong with a cell, given by its view, at `index`, if anything.
pub open spec fn cell_view_error(cell: CellView, index: int, node_count: nat, ids: Seq<RegionId>) -> Option<
    MeshError,
> {
    if cell.nodes.len() != cell.kind.nodes_per_cell() {
        Some(
            MeshError::InvalidCellNodeCount {
                cell: index as usize,
                expected: cell.kind.nodes_per_cell() as usize,
                actual: cell.nodes.len() as usize,
            },
        )
    } else if has_node_out_of_bounds(cell.nodes, node_count) {
        Some(MeshError::CellNodeOutOfBounds { cell: index as usize, node_count: node_count as usize })
    } else if has_repeated_node(cell.nodes) {
        Some(MeshError::DuplicateCellNode { cell: index as usize })
    } else if cell.region matches Some(r) && !ids.contains(r) {
        Some(MeshError::UnknownCellRegion { cell: index as usize, region: cell.region->0 })
    } else {
        None
    }
}

/// The first problem among cells given by their views, in order.
pub open spec fn cell_views_error(cells: Seq<CellView>, node_count: nat, ids: Seq<RegionId>) -> Option<
    MeshError,
>
    decreases cells.len(),
{
    if cells.len() == 0 {
        None
    } else {
        match cell_views_error(cells.drop_last(), node_count, ids) {
            Some(e) => Some(e),
            None => cell_view_error(cells.last(), cells.len() - 1, node_count, ids),
        }
    }
}

/// The first region id, in order, that an earlier region already has.
pub open spec fn region_ids_error(ids: Seq<RegionId>) -> Option<MeshError>
    decreases ids.len(),
{
    if ids.len() == 0 {
        None
    } else {
        match region_ids_error(ids.drop_last()) {
            Some(e) => Some(e),
            None => if ids.drop_last().contains(ids.last()) {
                Some(MeshError::DuplicateRegionId { region: ids.last() })
            } else {
                None
            },
        }
    }
}

/// Whether cells are valid depends on their views and the region ids alone.
pub proof fn lemma_cell_views_error(cells: Seq<Cell>, node_count: nat, regions: Seq<Region>)
    ensures
        cells_error(cells, node_count, regions) == cell_views_error(
            cell_views(cells),
            node_count,
            region_ids(regions),
        ),
    decreases cells.len(),
{
    if cells.len() > 0 {
        lemma_cell_views_error(cells.drop_last(), node_count, regions);
        assert(cell_views(cells.drop_last()) =~= cell_views(cells).drop_last());
        let c = cells.last();
        if let Some(r) = c.region {
            if has_region_id(regions, r) {
                let i = choose|i: int| 0 <= i < regions.len() && #[trigger] regions[i].id == r;
                assert(region_ids(regions)[i] == r);
            }
            if region_ids(regions).contains(r) {
                let i = choose|i: int| 0 <= i < region_ids(regions).len() && region_ids(regions)[i] == r;
                assert(regions[i].id == r);
            }
        }
    }
}

/// Whether region ids repeat depends on the ids alone.
pub proof fn lemma_region_ids_error(regions: Seq<Region>)
    ensures
        regions_error(regions) == region_ids_error(region_ids(regions)),
    decreases regions.len(),
{
    if regions.len() > 0 {
        lemma_region_ids_error(regions.drop_last());
        let p = regions.drop_last();
        assert(region_ids(p) =~= region_ids(regions).drop_last());
        let id = regions.last().id;
        if has_region_id(p, id) {
            let i = choose|i: int| 0 <= i < p.len() && #[trigger] p[i].id == id;
            assert(region_ids(p)[i] == id);
        }
        if region_ids(p).contains(id) {
            let i = choose|i: int| 0 <= i < region_ids(p).len() && region_ids(p)[i] == id;
            assert(p[i].id == id);
        }
    }
}

/// The coordinates of points by their texts.
pub open spec fn pointd_views(ps: Seq<PointD>) -> Seq<Seq<Seq<char>>> {
    ps.map_values(|p: PointD| p.coords@.map_values(|d: Decimal| d@))
}

/// Regions by their ids, names and dimensions.
pub open spec fn region_views(rs: Seq<Region>) -> Seq<(RegionId, Seq<char>, EntityDimension)> {
    rs.map_values(|r: Region| (r.id, r.name@, r.dimension))
}

/// Without a point error, each point has `dimension` coordinates.
pub proof fn lemma_points_dimension(points: Seq<PointD>, dimension: nat, i: int)
    requires
        points_error(points, dimension) is None,
        0 <= i < points.len(),
    ensures
        points[i].coords@.len() == dimension,
    decreases points.len(),
{
    if i < points.len() - 1 {
        assert(points.drop_last()[i] == points[i]);
        lemma_points_dimension(points.drop_last(), dimension, i);
    }
}

/// Points that all have `dimension` coordinates have no point error.
pub proof fn lemma_points_all_sized(points: Seq<PointD>, dimension: nat)
    requires
        forall|j: int| 0 <= j < points.len() ==> (#[trigger] points[j]).coords@.len() == dimension,
    ensures
        points_error(points, dimension) is None,
    decreases points.len(),
{
    if points.len() > 0 {
        assert forall|j: int| 0 <= j < points.drop_last().len() implies (
        #[trigger] points.drop_last()[j]).coords@.len() == dimension by {
            assert(points.drop_last()[j] == points[j]);
        }
        lemma_points_all_sized(points.drop_last(), dimension);
        assert(points[points.len() - 1] == points.last());
    }
}

/// Every cell has the nodes of its kind, in bounds and distinct, and lies in
/// a known region.
pub open spec fn cells_valid(cells: Seq<Cell>, node_count: nat, regions: Seq<Region>) -> bool {
    forall|i: int| 0 <= i < cells.len() ==> cell_error(#[trigger] cells[i], i, node_count, regions) is None
}

/// No error among the cells means that each cell is valid.
pub proof fn lemma_cells_valid(cells: Seq<Cell>, node_count: nat, regions: Seq<Region>)
    ensures
        cells_error(cells, node_count, regions) is None <==> cells_valid(cells, node_count, regions),
    decreases cells.len(),
{
    if cells.len() > 0 {
        let p = cells.drop_last();
        lemma_cells_valid(p, node_count, regions);
        if cells_valid(cells, node_count, regions) {
            assert forall|i: int| 0 <= i < p.len() implies cell_error(
                #[trigger] p[i],
                i,
                node_count,
                regions,
            ) is None by {
                assert(p[i] == cells[i]);
            }
            assert(cells[cells.len() - 1] == cells.last());
        }
        if cells_error(cells, node_count, regions) is None {
            assert forall|i: int| 0 <= i < cells.len() implies cell_error(
                #[trigger] cells[i],
                i,
                node_count,
                regions,
            ) is None by {
                if i < p.len() {
                    assert(p[i] == cells[i]);
                }
            }
        }
    }
}

fn region_ids_contain(regions: &Vec<Region>, upto: usize, id: RegionId) -> (r: bool)
    requires
        upto <= regions@.len(),
    ensures
        r == has_region_id(regions@.take(upto as int), id),
{
    let mut i: usize = 0;
    while i < upto
        invariant
            upto <= regions@.len(),
            i <= upto,
            forall|j: int| 0 <= j < i ==> regions@[j].id != id,
        decreases upto - i,
    {
        if regions[i].id == id {
            assert(regions@.take(upto as int)[i as int].id == id);
            return true;
        }
        i += 1;
    }
    assert forall|j: int| 0 <= j < upto implies #[trigger] regions@.take(upto as int)[j].id != id by {
        assert(regions@.take(upto as int)[j] == regions@[j]);
    }
    false
}

fn check_cell(cell: &Cell, index: usize, node_count: usize, regions: &Vec<Region>) -> (r: Option<
    MeshError,
>)
    ensures
        r == cell_error(*cell, index as int, node_count as nat, regions@),
{
    let expected = cell.kind.node_count();
    if cell.nodes.len() != expected {
        return Some(
            MeshError::InvalidCellNodeCount { cell: index, expected, actual: cell.nodes.len() },
        );
    }
    let n = cell.nodes.len();
    let mut j: usize = 0;
    while j < n
        invariant
            n == cell.nodes@.len(),
            n == cell.kind.nodes_per_cell(),
            j <= n,
            forall|k: int| 0 <= k < j ==> cell.nodes@[k] < node_count,
        decreases n - j,
    {
        if cell.nodes[j] >= node_count {
            assert(cell.nodes@[j as int] >= node_count);
            return Some(MeshError::CellNodeOutOfBounds { cell: index, node_count });
        }
        j += 1;
    }
    let mut a: usize = 0;
    while a < n
        invariant
            n == cell.nodes@.len(),
            n == cell.kind.nodes_per_cell(),
            a <= n,
            forall|p: int, q: int| 0 <= p < q < n && p < a ==> cell.nodes@[p] != cell.nodes@[q],
            !has_node_out_of_bounds(cell.nodes@, node_count as nat),
        decreases n - a,
    {
        let mut b = a + 1;
        while b < n
            invariant
                n == cell.nodes@.len(),
                n == cell.kind.nodes_per_cell(),
                !has_node_out_of_bounds(cell.nodes@, node_count as nat),
                a < n,
                a + 1 <= b <= n,
                forall|q: int| a < q < b ==> cell.nodes@[a as int] != cell.nodes@[q],
            decreases n - b,
        {
            if cell.nodes[a] == cell.nodes[b] {
                assert(cell.nodes@[a as int] == cell.nodes@[b as int]);
                return Some(MeshError::DuplicateCellNode { cell: index });
            }
            b += 1;
        }
        a += 1;
    }
    match cell.region {
        Some(region) => {
            let known = region_ids_contain(regions, regions.len(), region);
            assert(regions@.take(regions@.len() as int) =~= regions@);
            if !known {
                return Some(MeshError::UnknownCellRegion { cell: index, region });
            }
        },
        None => {},
    }
    None
}

fn check_cells(cells: &Vec<Cell>, node_count: usize, regions: &Vec<Region>) -> (r: Option<MeshError>)
    ensures
        r == cells_error(cells@, node_count as nat, regions@),
{
    let mut i: usize = 0;
    assert(cells@.take(0) =~= Seq::<Cell>::empty());
    while i < cells.len()
        invariant
            i <= cells@.len(),
            cells_error(cells@.take(i as int), node_count as nat, regions@) is None,
        decreases cells@.len() - i,
    {
        assert(cells@.take(i + 1).drop_last() =~= cells@.take(i as int));
        assert(cells@.take(i + 1).last() == cells@[i as int]);
        let e = check_cell(&cells[i], i, node_count, regions);
        if e.is_some() {
            proof {
                lemma_cells_error_extends(cells@, node_count as nat, regions@, i + 1);
            }
            return e;
        }
        i += 1;
    }
    assert(cells@.take(cells@.len() as int) =~= cells@);
    None
}

/// Once an error is found in a prefix of the cells, it is the error of all of them.
proof fn lemma_cells_error_extends(cells: Seq<Cell>, node_count: nat, regions: Seq<Region>, k: int)
    requires
        0 <= k <= cells.len(),
        cells_error(cells.take(k), node_count, regions) is Some,
    ensures
        cells_error(cells, node_count, regions) == cells_error(cells.take(k), node_count, regions),
    decreases cells.len() - k,
{
    if k < cells.len() {
        assert(cells.take(k + 1).drop_last() =~= cells.take(k));
        lemma_cells_error_extends(cells, node_count, regions, k + 1);
    } else {
        assert(cells.take(k) =~= cells);
    }
}

proof fn lemma_regions_error_extends(regions: Seq<Region>, k: int)
    requires
        0 <= k <= regions.len(),
        regions_error(regions.take(k)) is Some,
    ensures
        regions_error(regions) == regions_error(regions.take(k)),
    decreases regions.len() - k,
{
    if k < regions.len() {
        assert(regions.take(k + 1).drop_last() =~= regions.take(k));
        lemma_regions_error_extends(regions, k + 1);
    } else {
        assert(regions.take(k) =~= regions);
    }
}

proof fn lemma_points_error_extends(points: Seq<PointD>, dimension: nat, k: int)
    requires
        0 <= k <= points.len(),
        points_error(points.take(k), dimension) is Some,
    ensures
        points_error(points, dimension) == points_error(points.take(k), dimension),
    decreases points.len() - k,
{
    if k < points.len() {
        assert(points.take(k + 1).drop_last() =~= points.take(k));
        lemma_points_error_extends(points, dimension, k + 1);
    } else {
        assert(points.take(k) =~= points);
    }
}

fn check_regions(regions: &Vec<Region>) -> (r: Option<MeshError>)
    ensures
        r == regions_error(regions@),
{
    let mut i: usize = 0;
    assert(regions@.take(0) =~= Seq::<Region>::empty());
    while i < regions.len()
        invariant
            i <= regions@.len(),
            regions_error(regions@.take(i as int)) is None,
        decreases regions@.len() - i,
    {
        assert(regions@.take(i + 1).drop_last() =~= regions@.take(i as int));
        assert(regions@.take(i + 1).last() == regions@[i as int]);
        if region_ids_contain(regions, i, regions[i].id) {
            proof {
                lemma_regions_error_extends(regions@, i + 1);
            }
            return Some(MeshError::DuplicateRegionId { region: regions[i].id });
        }
        i += 1;
    }
    assert(regions@.take(regions@.len() as int) =~= regions@);
    None
}

fn check_points(points: &Vec<PointD>, dimension: usize) -> (r: Option<MeshError>)
    ensures
        r == points_error(points@, dimension as nat),
{
    let mut i: usize = 0;
    assert(points@.take(0) =~= Seq::<PointD>::empty());
    while i < points.len()
        invariant
            i <= points@.len(),
            points_error(points@.take(i as int), dimension as nat) is None,
        decreases points@.len() - i,
    {
        assert(points@.take(i + 1).drop_last() =~= points@.take(i as int));
        assert(points@.take(i + 1).last() == points@[i as int]);
        if points[i].coords.len() != dimension {
            proof {
                lemma_points_error_extends(points@, dimension as nat, i + 1);
            }
            return Some(
                MeshError::InvalidPointDimension {
                    point: i,
                    expected: dimension,
                    actual: points[i].coords.len(),
                },
            );
        }
        i += 1;
    }
    assert(points@.take(points@.len() as int) =~= points@);
    None
}

/// A validated mesh of any dimension: points, cells and named regions.
#[derive(Debug, PartialEq)]
pub struct MeshTopology {
    dimension: usize,
    points: Vec<PointD>,
    cells: Vec<Cell>,
    regions: Vec<Region>,
}

impl MeshTopology {
    #[verifier::type_invariant]
    spec fn valid(self) -> bool {
        topology_error(self.dimension as nat, self.points@, self.cells@, self.regions@) is None
    }

    /// The spatial dimension of the points.
    pub closed spec fn spec_dimension(&self) -> nat {
        self.dimension as nat
    }

    /// The points, in node order.
    pub closed spec fn spec_points(&self) -> Seq<PointD> {
        self.points@
    }

    /// The cells, in order.
    pub closed spec fn spec_cells(&self) -> Seq<Cell> {
        self.cells@
    }

    /// The regions, in order.
    pub closed spec fn spec_regions(&self) -> Seq<Region> {
        self.regions@
    }

    /// A mesh without regions, if the points and cells form one.
    pub fn new(dimension: usize, points: Vec<PointD>, cells: Vec<Cell>) -> (r: Result<
        MeshTopology,
        MeshError,
    >)
        ensures
            match r {
                Ok(m) => topology_error(dimension as nat, points@, cells@, seq![]) is None
                    && m.spec_dimension() == dimension && m.spec_points() == points@
                    && m.spec_cells() == cells@ && m.spec_regions() == Seq::<Region>::empty(),
                Err(e) => topology_error(dimension as nat, points@, cells@, seq![]) == Some(e),
            },
    {
        let regions: Vec<Region> = Vec::new();
        assert(regions@ =~= Seq::<Region>::empty());
        MeshTopology::with_regions(dimension, points, cells, regions)
    }

    /// A mesh with named regions, if the points, cells and regions form one.
    pub fn with_regions(
        dimension: usize,
        points: Vec<PointD>,
        cells: Vec<Cell>,
        regions: Vec<Region>,
    ) -> (r: Result<MeshTopology, MeshError>)
        ensures
            match r {
                Ok(m) => topology_error(dimension as nat, points@, cells@, regions@) is None
                    && m.spec_dimension() == dimension && m.spec_points() == points@
                    && m.spec_cells() == cells@ && m.spec_regions() == regions@,
                Err(e) => topology_error(dimension as nat, points@, cells@, regions@) == Some(e),
            },
    {
        if let Some(e) = check_points(&points, dimension) {
            return Err(e);
        }
        if let Some(e) = check_regions(&regions) {
            return Err(e);
        }
        if let Some(e) = check_cells(&cells, points.len(), &regions) {
            return Err(e);
        }
        Ok(MeshTopology { dimension, points, cells, regions })
    }

    /// The spatial dimension of the points.
    pub fn dimension(&self) -> (d: usize)
        ensures
            d == self.spec_dimension(),
    {
        self.dimension
    }

    /// The number of nodes.
    pub fn node_count(&self) -> (n: usize)
        ensures
            n == self.spec_points().len(),
    {
        self.points.len()
    }

    /// The points, in node order; each has as many coordinates as the
    /// dimension says.
    pub fn points(&self) -> (p: &Vec<PointD>)
        ensures
            p@ == self.spec_points(),
            points_error(p@, self.spec_dimension()) is None,
    {
        proof {
            use_type_invariant(self);
        }
        &self.points
    }

    /// The cells, in order; each is valid for this mesh.
    pub fn cells(&self) -> (c: &Vec<Cell>)
        ensures
            c@ == self.spec_cells(),
            cells_valid(c@, self.spec_points().len(), self.spec_regions()),
    {
        proof {
            use_type_invariant(self);
            lemma_cells_valid(self.cells@, self.points@.len(), self.regions@);
        }
        &self.cells
    }

    /// The same mesh with each point keeping only its first two coordinates.
    pub fn planar_projection(self) -> (r: MeshTopology)
        requires
            self.spec_dimension() >= 2,
        ensures
            r.spec_dimension() == 2,
            pointd_views(r.spec_points()) == pointd_views(self.spec_points()).map_values(
                |c: Seq<Seq<char>>| c.take(2),
            ),
            r.spec_cells() == self.spec_cells(),
            r.spec_regions() == self.spec_regions(),
    {
        proof {
            use_type_invariant(&self);
        }
        let ghost old_points = self.points@;
        let mut points: Vec<PointD> = Vec::new();
        let mut i: usize = 0;
        while i < self.points.len()
            invariant
                i <= self.points@.len(),
                self.points@ == old_points,
                points_error(old_points, self.dimension as nat) is None,
                self.dimension >= 2,
                points@.len() == i,
                forall|j: int| 0 <= j < i ==> (#[trigger] points@[j]).coords@.len() == 2,
                pointd_views(points@) == pointd_views(old_points).map_values(
                    |c: Seq<Seq<char>>| c.take(2),
                ).take(i as int),
            decreases self.points@.len() - i,
        {
            proof {
                lemma_points_dimension(old_points, self.dimension as nat, i as int);
            }
            let c = &self.points[i].coords;
            let mut two: Vec<Decimal> = Vec::new();
            two.push(c[0].copy());
            two.push(c[1].copy());
            let p = PointD::new(two);
            let ghost prev = points@;
            points.push(p);
            assert(p.coords@.map_values(|d: Decimal| d@) =~= old_points[i as int].coords@.map_values(
                |d: Decimal| d@,
            ).take(2));
            assert(pointd_views(points@) =~= pointd_views(prev).push(
                p.coords@.map_values(|d: Decimal| d@),
            ));
            assert(pointd_views(old_points).map_values(|c: Seq<Seq<char>>| c.take(2)).take(i + 1)
                =~= pointd_views(old_points).map_values(|c: Seq<Seq<char>>| c.take(2)).take(
                i as int,
            ).push(p.coords@.map_values(|d: Decimal| d@)));
            i += 1;
        }
        assert(pointd_views(old_points).map_values(|c: Seq<Seq<char>>| c.take(2)).take(
            old_points.len() as int,
        ) =~= pointd_views(old_points).map_values(|c: Seq<Seq<char>>| c.take(2)));
        proof {
            lemma_points_all_sized(points@, 2);
        }
        MeshTopology { dimension: 2, points, cells: self.cells, regions: self.regions }
    }

    /// The regions, in order; no two share an id.
    pub fn regions(&self) -> (r: &Vec<Region>)
        ensures
            r@ == self.spec_regions(),
            regions_error(r@) is None,
    {
        proof {
            use_type_invariant(self);
        }
        &self.regions
    }
}

/// The node lists of triangles.
pub open spec fn triangle_nodes(ts: Seq<Tri3>) -> Seq<Seq<NodeId>> {
    ts.map_values(|t: Tri3| t.nodes@)
}

/// The node lists of the linear triangles among `cells`, in order.
pub open spec fn triangles_of(cells: Seq<Cell>) -> Seq<Seq<NodeId>>
    decreases cells.len(),
{
    if cells.len() == 0 {
        seq![]
    } else {
        let prev = triangles_of(cells.drop_last());
        let c = cells.last();
        if c.kind == ElementKind::Tri3 && c.nodes@.len() == 3 {
            prev.push(c.nodes@)
        } else {
            prev
        }
    }
}

/// `cells` are the triangles `ts` as cells, in the same order.
pub open spec fn are_triangle_cells(cells: Seq<Cell>, ts: Seq<Tri3>) -> bool {
    &&& cells.len() == ts.len()
    &&& forall|i: int|
        0 <= i < cells.len() ==> {
            &&& (#[trigger] cells[i]).kind == ElementKind::Tri3
            &&& cells[i].nodes@ == ts[i].nodes@
            &&& cells[i].region is None
        }
}

/// What is wrong with the triangle at `index`, if anything.
pub open spec fn triangle_error(t: Tri3, index: int, node_count: nat) -> Option<MeshError> {
    if has_node_out_of_bounds(t.nodes@, node_count) {
        Some(MeshError::CellNodeOutOfBounds { cell: index as usize, node_count: node_count as usize })
    } else if has_repeated_node(t.nodes@) {
        Some(MeshError::DuplicateCellNode { cell: index as usize })
    } else {
        None
    }
}

/// The first problem among the triangles, in order.
pub open spec fn triangles_error(ts: Seq<Tri3>, node_count: nat) -> Option<MeshError>
    decreases ts.len(),
{
    if ts.len() == 0 {
        None
    } else {
        match triangles_error(ts.drop_last(), node_count) {
            Some(e) => Some(e),
            None => triangle_error(ts.last(), ts.len() - 1, node_count),
        }
    }
}

proof fn lemma_triangle_cells_error(cells: Seq<Cell>, ts: Seq<Tri3>, node_count: nat)
    requires
        are_triangle_cells(cells, ts),
    ensures
        cells_error(cells, node_count, seq![]) == triangles_error(ts, node_count),
        triangles_of(cells) == triangle_nodes(ts),
    decreases cells.len(),
{
    if cells.len() > 0 {
        let n = cells.len() - 1;
        assert(are_triangle_cells(cells.drop_last(), ts.drop_last())) by {
            assert forall|i: int| 0 <= i < n implies {
                &&& (#[trigger] cells.drop_last()[i]).kind == ElementKind::Tri3
                &&& cells.drop_last()[i].nodes@ == ts.drop_last()[i].nodes@
                &&& cells.drop_last()[i].region is None
            } by {
                assert(cells.drop_last()[i] == cells[i]);
            }
        }
        lemma_triangle_cells_error(cells.drop_last(), ts.drop_last(), node_count);
        assert(cells[n] == cells.last());
        assert(ts.last().nodes@.len() == 3);
        assert(triangle_nodes(ts) =~= triangle_nodes(ts.drop_last()).push(ts.last().nodes@));
    } else {
        assert(triangle_nodes(ts) =~= Seq::<Seq<NodeId>>::empty());
    }
}

/// A validated two-dimensional mesh: points of the plane and cells.
#[derive(Debug, PartialEq)]
pub struct Mesh {
    points: Vec<Point2>,
    cells: Vec<Cell>,
}

impl Mesh {
    #[verifier::type_invariant]
    spec fn valid(self) -> bool {
        cells_error(self.cells@, self.points@.len(), seq![]) is None
    }

    /// The points, in node order.
    pub closed spec fn spec_points(&self) -> Seq<Point2> {
        self.points@
    }

    /// The cells, in order.
    pub closed spec fn spec_cells(&self) -> Seq<Cell> {
        self.cells@
    }

    /// A mesh of linear triangles, if the triangles refer to existing nodes
    /// and none lists a node twice.
    pub fn new(points: Vec<Point2>, triangles: Vec<Tri3>) -> (r: Result<Mesh, MeshError>)
        ensures
            match r {
                Ok(m) => triangles_error(triangles@, points@.len()) is None && m.spec_points()
                    == points@ && are_triangle_cells(m.spec_cells(), triangles@),
                Err(e) => triangles_error(triangles@, points@.len()) == Some(e),
            },
    {
        let mut cells: Vec<Cell> = Vec::new();
        let mut i: usize = 0;
        while i < triangles.len()
            invariant
                i <= triangles@.len(),
                are_triangle_cells(cells@, triangles@.take(i as int)),
            decreases triangles@.len() - i,
        {
            let t = triangles[i];
            let nodes = vec![t.nodes[0], t.nodes[1], t.nodes[2]];
            assert(nodes@ =~= t.nodes@);
            cells.push(Cell::new(ElementKind::Tri3, nodes));
            assert forall|j: int| 0 <= j < i + 1 implies {
                &&& (#[trigger] cells@[j]).kind == ElementKind::Tri3
                &&& cells@[j].nodes@ == triangles@.take(i + 1)[j].nodes@
                &&& cells@[j].region is None
            } by {
                if j < i {
                    assert(triangles@.take(i + 1)[j] == triangles@.take(i as int)[j]);
                }
            }
            i += 1;
        }
        assert(triangles@.take(triangles@.len() as int) =~= triangles@);
        proof {
            lemma_triangle_cells_error(cells@, triangles@, points@.len());
        }
        let regions: Vec<Region> = Vec::new();
        assert(regions@ =~= Seq::<Region>::empty());
        match check_cells(&cells, points.len(), &regions) {
            Some(e) => Err(e),
            None => Ok(Mesh { points, cells }),
        }
    }

    /// A mesh of any cells, if the cells refer to existing nodes, have the
    /// nodes of their kind, none twice, and are in no region.
    pub fn new_with_cells(points: Vec<Point2>, cells: Vec<Cell>) -> (r: Result<Mesh, MeshError>)
        ensures
            match r {
                Ok(m) => cells_error(cells@, points@.len(), seq![]) is None && m.spec_points()
                    == points@ && m.spec_cells() == cells@,
                Err(e) => cells_error(cells@, points@.len(), seq![]) == Some(e),
            },
    {
        let regions: Vec<Region> = Vec::new();
        assert(regions@ =~= Seq::<Region>::empty());
        match check_cells(&cells, points.len(), &regions) {
            Some(e) => Err(e),
            None => Ok(Mesh { points, cells }),
        }
    }

    /// The number of nodes.
    pub fn node_count(&self) -> (n: usize)
        ensures
            n == self.spec_points().len(),
    {
        self.points.len()
    }

    /// The points, in node order.
    pub fn points(&self) -> (p: &Vec<Point2>)
        ensures
            p@ == self.spec_points(),
    {
        &self.points
    }

    /// The cells, in order; each is valid for this mesh.
    pub fn cells(&self) -> (c: &Vec<Cell>)
        ensures
            c@ == self.spec_cells(),
            cells_valid(c@, self.spec_points().len(), seq![]),
    {
        proof {
            use_type_invariant(self);
            lemma_cells_valid(self.cells@, self.points@.len(), seq![]);
        }
        &self.cells
    }

    /// The linear triangles among the cells, in order.
    pub fn triangles(&self) -> (r: Vec<Tri3>)
        ensures
            triangle_nodes(r@) == triangles_of(self.spec_cells()),
    {
        let mut r: Vec<Tri3> = Vec::new();
        let mut i: usize = 0;
        assert(self.cells@.take(0) =~= Seq::<Cell>::empty());
        assert(triangle_nodes(r@) =~= Seq::<Seq<NodeId>>::empty());
        while i < self.cells.len()
            invariant
                i <= self.cells@.len(),
                triangle_nodes(r@) == triangles_of(self.cells@.take(i as int)),
            decreases self.cells@.len() - i,
        {
            let c = &self.cells[i];
            assert(self.cells@.take(i + 1).drop_last() =~= self.cells@.take(i as int));
            assert(self.cells@.take(i + 1).last() == self.cells@[i as int]);
            if c.kind == ElementKind::Tri3 && c.nodes.len() == 3 {
                let t = Tri3 { nodes: [c.nodes[0], c.nodes[1], c.nodes[2]] };
                assert(t.nodes@ =~= c.nodes@);
                let ghost prev = r@;
                r.push(t);
                assert(triangle_nodes(r@) =~= triangle_nodes(prev).push(t.nodes@));
            }
            i += 1;
        }
        assert(self.cells@.take(self.cells@.len() as int) =~= self.cells@);
        r
    }
}

} // verus!
