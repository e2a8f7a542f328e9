//! Geometry annotations: materials and parameters assigned to mesh regions,
//! and their validation against a mesh topology.
use std::collections::BTreeMap;
use vstd::prelude::*;

use crate::mesh::{MeshTopology, Region, RegionId};
use crate::numbers::Decimal;

verus! {

broadcast use {vstd::std_specs::btree::group_btree_axioms, vstd::laws_cmp::group_laws_cmp};

pub type AnnotationId = usize;

pub type ParameterId = usize;

/// Names a region, by id or by name.
#[derive(Debug, PartialEq)]
pub enum EntitySelector {
    RegionId(RegionId),
    RegionName(String),
}

/// Why annotations or a selector do not fit a topology.
#[derive(Debug, PartialEq)]
pub enum AnnotationError {
    UnknownRegionId { region_id: RegionId },
    UnknownRegionName { name: String },
    AmbiguousRegionName { name: String },
    DuplicateMaterialId { id: AnnotationId },
    DuplicateMaterialName { name: String },
    DuplicateParameterId { id: ParameterId },
    DuplicateParameterForTarget { region_id: RegionId, name: String },
    DuplicateMaterialProperty { name: String },
}

/// Some region has the id.
pub open spec fn region_with_id(regions: Seq<Region>, id: RegionId) -> bool {
    exists|i: int| 0 <= i < regions.len() && #[trigger] regions[i].id == id
}

/// Some region has the name.
pub open spec fn region_named(regions: Seq<Region>, name: Seq<char>) -> bool {
    exists|i: int| 0 <= i < regions.len() && #[trigger] regions[i].name@ == name
}

/// Two different regions have the name.
pub open spec fn name_ambiguous(regions: Seq<Region>, name: Seq<char>) -> bool {
    exists|i: int, j: int|
        0 <= i < j < regions.len() && #[trigger] regions[i].name@ == name && #[trigger] regions[j].name@
            == name
}

/// The region a selector names among `regions`, or why there is none: an
/// id must be some region's id; a name must be the name of exactly one region.
pub open spec fn resolve(sel: EntitySelector, regions: Seq<Region>) -> Result<
    RegionId,
    AnnotationError,
> {
    match sel {
        EntitySelector::RegionId(id) => if region_with_id(regions, id) {
            Ok(id)
        } else {
            Err(AnnotationError::UnknownRegionId { region_id: id })
        },
        EntitySelector::RegionName(name) => if !region_named(regions, name@) {
            Err(AnnotationError::UnknownRegionName { name })
        } else if name_ambiguous(regions, name@) {
            Err(AnnotationError::AmbiguousRegionName { name })
        } else {
            Ok(regions[choose|i: int| 0 <= i < regions.len() && regions[i].name@ == name@].id)
        },
    }
}

impl EntitySelector {
    /// Selects the region with the given id.
    pub fn region_id(region_id: RegionId) -> (s: EntitySelector)
        ensures
            s == EntitySelector::RegionId(region_id),
    {
        EntitySelector::RegionId(region_id)
    }

    /// Selects the region with the given name.
    pub fn region_name(name: &str) -> (s: EntitySelector)
        ensures
            s matches EntitySelector::RegionName(n) && n@ == name@,
    {
        EntitySelector::RegionName(name.to_owned())
    }

    /// A copy of this selector.
    pub fn copy(&self) -> (s: EntitySelector)
        ensures
            s == *self,
    {
        match self {
            EntitySelector::RegionId(id) => EntitySelector::RegionId(*id),
            EntitySelector::RegionName(name) => EntitySelector::RegionName(name.clone()),
        }
    }

    /// The id of the region this selector names.
    pub fn resolve_region_id(&self, regions: &[Region]) -> (r: Result<RegionId, AnnotationError>)
        ensures
            r == resolve(*self, regions@),
    {
        match self {
            EntitySelector::RegionId(region_id) => {
                let mut i: usize = 0;
                while i < regions.len()
                    invariant
                        i <= regions@.len(),
                        *self == EntitySelector::RegionId(*region_id),
                        forall|j: int| 0 <= j < i ==> regions@[j].id != *region_id,
                    decreases regions@.len() - i,
                {
                    if regions[i].id == *region_id {
                        assert(regions@[i as int].id == *region_id);
                        return Ok(regions[i].id);
                    }
                    i += 1;
                }
                Err(AnnotationError::UnknownRegionId { region_id: *region_id })
            },
            EntitySelector::RegionName(name) => {
                let mut found: Option<usize> = None;
                let mut i: usize = 0;
                while i < regions.len()
                    invariant
                        i <= regions@.len(),
                        *self == EntitySelector::RegionName(*name),
                        match found {
                            None => forall|j: int| 0 <= j < i ==> regions@[j].name@ != name@,
                            Some(f) => f < i && regions@[f as int].name@ == name@ && forall|j: int|
                                0 <= j < i && j != f ==> regions@[j].name@ != name@,
                        },
                    decreases regions@.len() - i,
                {
                    if regions[i].name == *name {
                        match found {
                            Some(f) => {
                                assert(regions@[f as int].name@ == name@);
                                assert(regions@[i as int].name@ == name@);
                                return Err(AnnotationError::AmbiguousRegionName { name: name.clone() });
                            },
                            None => {
                                found = Some(i);
                            },
                        }
                    }
                    i += 1;
                }
                match found {
                    None => Err(AnnotationError::UnknownRegionName { name: name.clone() }),
                    Some(f) => {
                        assert(regions@[f as int].name@ == name@);
                        assert(!name_ambiguous(regions@, name@));
                        let ghost c = choose|k: int| 0 <= k < regions@.len() && regions@[k].name@ == name@;
                        assert(c == f);
                        Ok(regions[f].id)
                    },
                }
            },
        }
    }
}

/// The value of a parameter, by its decimal text.
pub enum ValueView {
    Scalar(Seq<char>),
    Vector(Seq<Seq<char>>),
    Text(Seq<char>),
}

/// The texts of some numbers.
pub open spec fn decimal_views(v: Seq<Decimal>) -> Seq<Seq<char>> {
    v.map_values(|d: Decimal| d@)
}

/// A copy of some numbers.
pub fn copy_decimals(v: &Vec<Decimal>) -> (r: Vec<Decimal>)
    ensures
        decimal_views(r@) == decimal_views(v@),
{
    let mut r: Vec<Decimal> = Vec::new();
    let mut i: usize = 0;
    while i < v.len()
        invariant
            i <= v@.len(),
            decimal_views(r@) == decimal_views(v@.take(i as int)),
        decreases v@.len() - i,
    {
        let ghost before = r@;
        let c = v[i].copy();
        r.push(c);
        assert(decimal_views(r@) =~= decimal_views(before).push(c@));
        assert(v@.take(i + 1) =~= v@.take(i as int).push(v@[i as int]));
        assert(decimal_views(v@.take(i + 1)) =~= decimal_views(v@.take(i as int)).push(v@[i as int]@));
        i += 1;
    }
    assert(v@.take(v@.len() as int) =~= v@);
    r
}

/// The value of a parameter or property.
#[derive(Debug, PartialEq)]
pub enum ParameterValue {
    Scalar(Decimal),
    Vector(Vec<Decimal>),
    Text(String),
}

impl View for ParameterValue {
    type V = ValueView;

    open spec fn view(&self) -> ValueView {
        match self {
            ParameterValue::Scalar(d) => ValueView::Scalar(d@),
            ParameterValue::Vector(v) => ValueView::Vector(decimal_views(v@)),
            ParameterValue::Text(t) => ValueView::Text(t@),
        }
    }
}

impl ParameterValue {
    /// A copy of this value.
    pub fn copy(&self) -> (r: ParameterValue)
        ensures
            r@ == self@,
    {
        match self {
            ParameterValue::Scalar(d) => ParameterValue::Scalar(d.copy()),
            ParameterValue::Vector(v) => ParameterValue::Vector(copy_decimals(v)),
            ParameterValue::Text(t) => ParameterValue::Text(t.clone()),
        }
    }
}

/// The optional units of a quantity, by their text.
pub open spec fn units_view(u: Option<String>) -> Option<Seq<char>> {
    match u {
        Some(s) => Some(s@),
        None => None,
    }
}

/// A copy of optional units.
pub fn copy_units(u: &Option<String>) -> (r: Option<String>)
    ensures
        r == *u,
{
    match u {
        Some(s) => Some(s.clone()),
        None => None,
    }
}

/// A named, valued and possibly dimensioned property.
#[derive(Debug, PartialEq)]
pub struct Parameter {
    pub name: String,
    pub value: ParameterValue,
    pub units: Option<String>,
}

impl View for Parameter {
    type V = (Seq<char>, ValueView, Option<Seq<char>>);

    open spec fn view(&self) -> (Seq<char>, ValueView, Option<Seq<char>>) {
        (self.name@, self.value@, units_view(self.units))
    }
}

impl Parameter {
    /// A property with a single number.
    pub fn scalar(name: &str, value: Decimal, units: Option<&str>) -> (p: Parameter)
        ensures
            p.name@ == name@,
            p.value == ParameterValue::Scalar(value),
            units_view(p.units) == match units {
                Some(u) => Some(u@),
                None => None::<Seq<char>>,
            },
    {
        Parameter { name: name.to_owned(), value: ParameterValue::Scalar(value), units: owned_units(units) }
    }

    /// A property with a vector of numbers.
    pub fn vector(name: &str, value: Vec<Decimal>, units: Option<&str>) -> (p: Parameter)
        ensures
            p.name@ == name@,
            p.value == ParameterValue::Vector(value),
            units_view(p.units) == match units {
                Some(u) => Some(u@),
                None => None::<Seq<char>>,
            },
    {
        Parameter { name: name.to_owned(), value: ParameterValue::Vector(value), units: owned_units(units) }
    }

    /// A property with a text value and no units.
    pub fn text(name: &str, value: &str) -> (p: Parameter)
        ensures
            p.name@ == name@,
            p.value@ == ValueView::Text(value@),
            p.units is None,
    {
        Parameter {
            name: name.to_owned(),
            value: ParameterValue::Text(value.to_owned()),
            units: None,
        }
    }

    /// A copy of this property.
    pub fn copy(&self) -> (r: Parameter)
        ensures
            r@ == self@,
    {
        Parameter { name: self.name.clone(), value: self.value.copy(), units: copy_units(&self.units) }
    }
}

fn owned_units(units: Option<&str>) -> (r: Option<String>)
    ensures
        units_view(r) == match units {
            Some(u) => Some(u@),
            None => None::<Seq<char>>,
        },
{
    match units {
        Some(u) => Some(u.to_owned()),
        None => None,
    }
}

/// The views of some properties.
pub open spec fn parameter_views(ps: Seq<Parameter>) -> Seq<(Seq<char>, ValueView, Option<Seq<char>>)> {
    ps.map_values(|p: Parameter| p@)
}

/// A copy of some properties.
pub fn copy_parameters(ps: &Vec<Parameter>) -> (r: Vec<Parameter>)
    ensures
        parameter_views(r@) == parameter_views(ps@),
{
    let mut r: Vec<Parameter> = Vec::new();
    let mut i: usize = 0;
    while i < ps.len()
        invariant
            i <= ps@.len(),
            parameter_views(r@) == parameter_views(ps@.take(i as int)),
        decreases ps@.len() - i,
    {
        let ghost before = r@;
        let c = ps[i].copy();
        r.push(c);
        assert(parameter_views(r@) =~= parameter_views(before).push(c@));
        assert(ps@.take(i + 1) =~= ps@.take(i as int).push(ps@[i as int]));
        assert(parameter_views(ps@.take(i + 1)) =~= parameter_views(ps@.take(i as int)).push(
            ps@[i as int]@,
        ));
        i += 1;
    }
    assert(ps@.take(ps@.len() as int) =~= ps@);
    r
}

/// A material, with its properties, assigned to a region.
#[derive(Debug, PartialEq)]
pub struct MaterialAssignment {
    pub id: AnnotationId,
    pub name: String,
    pub target: EntitySelector,
    pub properties: Vec<Parameter>,
}

impl MaterialAssignment {
    pub fn new(id: AnnotationId, name: &str, target: EntitySelector, properties: Vec<Parameter>) -> (m:
        MaterialAssignment)
        ensures
            m.id == id,
            m.name@ == name@,
            m.target == target,
            m.properties@ == properties@,
    {
        MaterialAssignment { id, name: name.to_owned(), target, properties }
    }
}

/// A parameter assigned to a region.
#[derive(Debug, PartialEq)]
pub struct ParameterAssignment {
    pub id: ParameterId,
    pub name: String,
    pub target: EntitySelector,
    pub value: ParameterValue,
    pub units: Option<String>,
}

impl ParameterAssignment {
    pub fn new(
        id: ParameterId,
        name: &str,
        target: EntitySelector,
        value: ParameterValue,
        units: Option<&str>,
    ) -> (p: ParameterAssignment)
        ensures
            p.id == id,
            p.name@ == name@,
            p.target == target,
            p.value == value,
            units_view(p.units) == match units {
                Some(u) => Some(u@),
                None => None::<Seq<char>>,
            },
    {
        ParameterAssignment { id, name: name.to_owned(), target, value, units: owned_units(units) }
    }
}

/// A material assignment whose target has been resolved to a region id.
#[derive(Debug, PartialEq)]
pub struct ResolvedMaterialAssignment {
    pub id: AnnotationId,
    pub name: String,
    pub region_id: RegionId,
    pub properties: Vec<Parameter>,
}

/// A parameter assignment whose target has been resolved to a region id.
#[derive(Debug, PartialEq)]
pub struct ResolvedParameterAssignment {
    pub id: ParameterId,
    pub name: String,
    pub region_id: RegionId,
    pub value: ParameterValue,
    pub units: Option<String>,
}

/// Annotations whose targets have all been resolved.
#[derive(Debug, PartialEq)]
pub struct ResolvedAnnotations {
    pub materials: Vec<ResolvedMaterialAssignment>,
    pub parameters: Vec<ResolvedParameterAssignment>,
}

/// The first property, in order, whose name an earlier property has.
pub open spec fn property_error(ps: Seq<Parameter>) -> Option<AnnotationError>
    decreases ps.len(),
{
    if ps.len() == 0 {
        None
    } else {
        match property_error(ps.drop_last()) {
            Some(e) => Some(e),
            None => if exists|i: int| 0 <= i < ps.len() - 1 && #[trigger] ps[i].name@ == ps.last().name@ {
                Some(AnnotationError::DuplicateMaterialProperty { name: ps.last().name })
            } else {
                None
            },
        }
    }
}

/// What is wrong with a material, given the materials before it.
pub open spec fn material_error(
    earlier: Seq<MaterialAssignment>,
    m: MaterialAssignment,
    regions: Seq<Region>,
) -> Option<AnnotationError> {
    if exists|i: int| 0 <= i < earlier.len() && #[trigger] earlier[i].id == m.id {
        Some(AnnotationError::DuplicateMaterialId { id: m.id })
    } else if exists|i: int| 0 <= i < earlier.len() && #[trigger] earlier[i].name@ == m.name@ {
        Some(AnnotationError::DuplicateMaterialName { name: m.name })
    } else {
        match resolve(m.target, regions) {
            Err(e) => Some(e),
            Ok(_) => property_error(m.properties@),
        }
    }
}

/// The first problem among the materials, in order.
pub open spec fn materials_error(ms: Seq<MaterialAssignment>, regions: Seq<Region>) -> Option<
    AnnotationError,
>
    decreases ms.len(),
{
    if ms.len() == 0 {
        None
    } else {
        match materials_error(ms.drop_last(), regions) {
            Some(e) => Some(e),
            None => material_error(ms.drop_last(), ms.last(), regions),
        }
    }
}

/// What is wrong with a parameter assignment, given those before it (whose
/// targets all resolve).
pub open spec fn parameter_error(
    earlier: Seq<ParameterAssignment>,
    p: ParameterAssignment,
    regions: Seq<Region>,
) -> Option<AnnotationError> {
    if exists|i: int| 0 <= i < earlier.len() && #[trigger] earlier[i].id == p.id {
        Some(AnnotationError::DuplicateParameterId { id: p.id })
    } else {
        match resolve(p.target, regions) {
            Err(e) => Some(e),
            Ok(r) => if exists|i: int|
                0 <= i < earlier.len() && resolve(#[trigger] earlier[i].target, regions) == Ok::<
                    RegionId,
                    AnnotationError,
                >(r) && earlier[i].name@ == p.name@ {
                Some(AnnotationError::DuplicateParameterForTarget { region_id: r, name: p.name })
            } else {
                None
            },
        }
    }
}

/// The first problem among the parameter assignments, in order.
pub open spec fn parameters_error(ps: Seq<ParameterAssignment>, regions: Seq<Region>) -> Option<
    AnnotationError,
>
    decreases ps.len(),
{
    if ps.len() == 0 {
        None
    } else {
        match parameters_error(ps.drop_last(), regions) {
            Some(e) => Some(e),
            None => parameter_error(ps.drop_last(), ps.last(), regions),
        }
    }
}

/// The resolved form of a material.
pub open spec fn resolves_material(r: ResolvedMaterialAssignment, m: MaterialAssignment, regions: Seq<
    Region,
>) -> bool {
    &&& r.id == m.id
    &&& r.name@ == m.name@
    &&& Ok::<RegionId, AnnotationError>(r.region_id) == resolve(m.target, regions)
    &&& parameter_views(r.properties@) == parameter_views(m.properties@)
}

/// The resolved form of a parameter assignment.
pub open spec fn resolves_parameter(
    r: ResolvedParameterAssignment,
    p: ParameterAssignment,
    regions: Seq<Region>,
) -> bool {
    &&& r.id == p.id
    &&& r.name@ == p.name@
    &&& Ok::<RegionId, AnnotationError>(r.region_id) == resolve(p.target, regions)
    &&& r.value@ == p.value@
    &&& r.units == p.units
}

/// Materials and parameters assigned to regions.
#[derive(Debug, PartialEq)]
pub struct GeometryAnnotations {
    materials: Vec<MaterialAssignment>,
    parameters: Vec<ParameterAssignment>,
}

proof fn lemma_property_error_stays(all: Seq<Parameter>, k: int)
    requires
        0 <= k <= all.len(),
        property_error(all.take(k)) is Some,
    ensures
        property_error(all) == property_error(all.take(k)),
    decreases all.len() - k,
{
    if k < all.len() {
        assert(all.take(k + 1).drop_last() =~= all.take(k));
        lemma_property_error_stays(all, k + 1);
    } else {
        assert(all.take(k) =~= all);
    }
}

proof fn lemma_materials_error_stays(all: Seq<MaterialAssignment>, regions: Seq<Region>, k: int)
    requires
        0 <= k <= all.len(),
        materials_error(all.take(k), regions) is Some,
    ensures
        materials_error(all, regions) == materials_error(all.take(k), regions),
    decreases all.len() - k,
{
    if k < all.len() {
        assert(all.take(k + 1).drop_last() =~= all.take(k));
        lemma_materials_error_stays(all, regions, k + 1);
    } else {
        assert(all.take(k) =~= all);
    }
}

proof fn lemma_parameters_error_stays(all: Seq<ParameterAssignment>, regions: Seq<Region>, k: int)
    requires
        0 <= k <= all.len(),
        parameters_error(all.take(k), regions) is Some,
    ensures
        parameters_error(all, regions) == parameters_error(all.take(k), regions),
    decreases all.len() - k,
{
    if k < all.len() {
        assert(all.take(k + 1).drop_last() =~= all.take(k));
        lemma_parameters_error_stays(all, regions, k + 1);
    } else {
        assert(all.take(k) =~= all);
    }
}

fn check_properties(ps: &Vec<Parameter>) -> (r: Option<AnnotationError>)
    ensures
        r == property_error(ps@),
{
    let mut i: usize = 0;
    assert(ps@.take(0) =~= Seq::<Parameter>::empty());
    while i < ps.len()
        invariant
            i <= ps@.len(),
            property_error(ps@.take(i as int)) is None,
        decreases ps@.len() - i,
    {
        let ghost pre = ps@.take(i + 1);
        assert(pre.drop_last() =~= ps@.take(i as int));
        assert(pre.last() == ps@[i as int]);
        let mut j: usize = 0;
        while j < i
            invariant
                i < ps@.len(),
                j <= i,
                pre == ps@.take(i + 1),
                pre.drop_last() == ps@.take(i as int),
                pre.last() == ps@[i as int],
                property_error(ps@.take(i as int)) is None,
                forall|k: int| 0 <= k < j ==> ps@[k].name@ != ps@[i as int].name@,
            decreases i - j,
        {
            if ps[j].name == ps[i].name {
                assert(pre[j as int].name@ == pre.last().name@);
                proof {
                    lemma_property_error_stays(ps@, i + 1);
                }
                return Some(AnnotationError::DuplicateMaterialProperty { name: ps[i].name.clone() });
            }
            j += 1;
        }
        assert forall|k: int| 0 <= k < pre.len() - 1 implies #[trigger] pre[k].name@ != pre.last().name@ by {
            assert(pre[k] == ps@[k]);
        }
        i += 1;
    }
    assert(ps@.take(ps@.len() as int) =~= ps@);
    None
}

impl GeometryAnnotations {
    /// Annotations without materials or parameters.
    pub fn new() -> (a: GeometryAnnotations)
        ensures
            a.spec_materials() == Seq::<MaterialAssignment>::empty(),
            a.spec_parameters() == Seq::<ParameterAssignment>::empty(),
    {
        GeometryAnnotations { materials: Vec::new(), parameters: Vec::new() }
    }

    /// The materials, in the order they were added.
    pub closed spec fn spec_materials(&self) -> Seq<MaterialAssignment> {
        self.materials@
    }

    /// The parameter assignments, in the order they were added.
    pub closed spec fn spec_parameters(&self) -> Seq<ParameterAssignment> {
        self.parameters@
    }

    /// These annotations and one more material.
    pub fn with_material(self, material: MaterialAssignment) -> (a: GeometryAnnotations)
        ensures
            a.spec_materials() == self.spec_materials().push(material),
            a.spec_parameters() == self.spec_parameters(),
    {
        let mut a = self;
        a.materials.push(material);
        a
    }

    /// These annotations and one more parameter assignment.
    pub fn with_parameter(self, parameter: ParameterAssignment) -> (a: GeometryAnnotations)
        ensures
            a.spec_materials() == self.spec_materials(),
            a.spec_parameters() == self.spec_parameters().push(parameter),
    {
        let mut a = self;
        a.parameters.push(parameter);
        a
    }

    /// The materials.
    pub fn materials(&self) -> (m: &Vec<MaterialAssignment>)
        ensures
            m@ == self.spec_materials(),
    {
        &self.materials
    }

    /// The parameter assignments.
    pub fn parameters(&self) -> (p: &Vec<ParameterAssignment>)
        ensures
            p@ == self.spec_parameters(),
    {
        &self.parameters
    }

    /// Resolves every target against the regions of `topology`. Fails on the
    /// first material (in order) that repeats an id or a name, names no
    /// single region or repeats a property name; then on the first parameter
    /// that repeats an id, names no single region, or repeats the name of an
    /// earlier parameter on the same region.
    pub fn validate_for_topology(&self, topology: &MeshTopology) -> (r: Result<
        ResolvedAnnotations,
        AnnotationError,
    >)
        ensures
            match r {
                Ok(res) => {
                    &&& materials_error(self.spec_materials(), topology.spec_regions()) is None
                    &&& parameters_error(self.spec_parameters(), topology.spec_regions()) is None
                    &&& res.materials@.len() == self.spec_materials().len()
                    &&& forall|i: int|
                        0 <= i < res.materials@.len() ==> resolves_material(
                            #[trigger] res.materials@[i],
                            self.spec_materials()[i],
                            topology.spec_regions(),
                        )
                    &&& res.parameters@.len() == self.spec_parameters().len()
                    &&& forall|i: int|
                        0 <= i < res.parameters@.len() ==> resolves_parameter(
                            #[trigger] res.parameters@[i],
                            self.spec_parameters()[i],
                            topology.spec_regions(),
                        )
                },
                Err(e) => match materials_error(self.spec_materials(), topology.spec_regions()) {
                    Some(me) => e == me,
                    None => parameters_error(self.spec_parameters(), topology.spec_regions())
                        == Some(e),
                },
            },
    {
        let regions = topology.regions();
        let ghost rs = regions@;
        let ms = &self.materials;
        let mut resolved_materials: Vec<ResolvedMaterialAssignment> = Vec::new();
        let mut i: usize = 0;
        assert(ms@.take(0) =~= Seq::<MaterialAssignment>::empty());
        while i < ms.len()
            invariant
                i <= ms@.len(),
                rs == regions@,
                rs == topology.spec_regions(),
                ms@ == self.spec_materials(),
                materials_error(ms@.take(i as int), rs) is None,
                resolved_materials@.len() == i,
                forall|k: int|
                    0 <= k < i ==> resolves_material(#[trigger] resolved_materials@[k], ms@[k], rs),
            decreases ms@.len() - i,
        {
            let m = &ms[i];
            let ghost pre = ms@.take(i + 1);
            assert(pre.drop_last() =~= ms@.take(i as int));
            assert(pre.last() == ms@[i as int]);
            let mut j: usize = 0;
            while j < i
                invariant
                    i < ms@.len(),
                    j <= i,
                    pre == ms@.take(i + 1),
                    pre.drop_last() == ms@.take(i as int),
                    pre.last() == ms@[i as int],
                    *m == ms@[i as int],
                    rs == regions@,
                    rs == topology.spec_regions(),
                    ms@ == self.spec_materials(),
                    materials_error(ms@.take(i as int), rs) is None,
                    forall|k: int| 0 <= k < j ==> ms@[k].id != ms@[i as int].id,
                decreases i - j,
            {
                if ms[j].id == m.id {
                    assert(pre.drop_last()[j as int].id == m.id);
                    proof {
                        lemma_materials_error_stays(ms@, rs, i + 1);
                    }
                    return Err(AnnotationError::DuplicateMaterialId { id: m.id });
                }
                j += 1;
            }
            assert(!exists|k: int| 0 <= k < pre.drop_last().len() && #[trigger] pre.drop_last()[k].id
                == m.id) by {
                assert forall|k: int| 0 <= k < pre.drop_last().len() implies #[trigger] pre.drop_last()[k].id
                    != m.id by {
                    assert(pre.drop_last()[k] == ms@[k]);
                }
            }
            let mut j: usize = 0;
            while j < i
                invariant
                    i < ms@.len(),
                    j <= i,
                    pre == ms@.take(i + 1),
                    pre.drop_last() == ms@.take(i as int),
                    pre.last() == ms@[i as int],
                    *m == ms@[i as int],
                    rs == regions@,
                    rs == topology.spec_regions(),
                    ms@ == self.spec_materials(),
                    materials_error(ms@.take(i as int), rs) is None,
                    !exists|k: int| 0 <= k < pre.drop_last().len() && #[trigger] pre.drop_last()[k].id
                        == m.id,
                    forall|k: int| 0 <= k < j ==> ms@[k].name@ != ms@[i as int].name@,
                decreases i - j,
            {
                if ms[j].name == m.name {
                    assert(pre.drop_last()[j as int].name@ == m.name@);
                    proof {
                        lemma_materials_error_stays(ms@, rs, i + 1);
                    }
                    return Err(AnnotationError::DuplicateMaterialName { name: m.name.clone() });
                }
                j += 1;
            }
            assert(!exists|k: int| 0 <= k < pre.drop_last().len() && #[trigger] pre.drop_last()[k].name@
                == m.name@) by {
                assert forall|k: int| 0 <= k < pre.drop_last().len() implies #[trigger] pre.drop_last()[k].name@
                    != m.name@ by {
                    assert(pre.drop_last()[k] == ms@[k]);
                }
            }
            let region_id = match m.target.resolve_region_id(regions.as_slice()) {
                Ok(id) => id,
                Err(e) => {
                    proof {
                        lemma_materials_error_stays(ms@, rs, i + 1);
                    }
                    return Err(e);
                },
            };
            if let Some(e) = check_properties(&m.properties) {
                proof {
                    lemma_materials_error_stays(ms@, rs, i + 1);
                }
                return Err(e);
            }
            resolved_materials.push(
                ResolvedMaterialAssignment {
                    id: m.id,
                    name: m.name.clone(),
                    region_id,
                    properties: copy_parameters(&m.properties),
                },
            );
            i += 1;
        }
        assert(ms@.take(ms@.len() as int) =~= ms@);
        let ps = &self.parameters;
        let mut resolved_parameters: Vec<ResolvedParameterAssignment> = Vec::new();
        let mut i: usize = 0;
        assert(ps@.take(0) =~= Seq::<ParameterAssignment>::empty());
        while i < ps.len()
            invariant
                i <= ps@.len(),
                rs == regions@,
                rs == topology.spec_regions(),
                ps@ == self.spec_parameters(),
                materials_error(ms@, rs) is None,
                ms@ == self.spec_materials(),
                resolved_materials@.len() == ms@.len(),
                forall|k: int|
                    0 <= k < ms@.len() ==> resolves_material(#[trigger] resolved_materials@[k], ms@[k], rs),
                parameters_error(ps@.take(i as int), rs) is None,
                resolved_parameters@.len() == i,
                forall|k: int|
                    0 <= k < i ==> resolves_parameter(#[trigger] resolved_parameters@[k], ps@[k], rs),
            decreases ps@.len() - i,
        {
            let p = &ps[i];
            let ghost pre = ps@.take(i + 1);
            assert(pre.drop_last() =~= ps@.take(i as int));
            assert(pre.last() == ps@[i as int]);
            let mut j: usize = 0;
            while j < i
                invariant
                    i < ps@.len(),
                    j <= i,
                    pre == ps@.take(i + 1),
                    pre.drop_last() == ps@.take(i as int),
                    pre.last() == ps@[i as int],
                    *p == ps@[i as int],
                    rs == regions@,
                    rs == topology.spec_regions(),
                    ps@ == self.spec_parameters(),
                    materials_error(ms@, rs) is None,
                    ms@ == self.spec_materials(),
                    parameters_error(ps@.take(i as int), rs) is None,
                    forall|k: int| 0 <= k < j ==> ps@[k].id != ps@[i as int].id,
                decreases i - j,
            {
                if ps[j].id == p.id {
                    assert(pre.drop_last()[j as int].id == p.id);
                    proof {
                        lemma_parameters_error_stays(ps@, rs, i + 1);
                    }
                    return Err(AnnotationError::DuplicateParameterId { id: p.id });
                }
                j += 1;
            }
            assert(!exists|k: int| 0 <= k < pre.drop_last().len() && #[trigger] pre.drop_last()[k].id
                == p.id) by {
                assert forall|k: int| 0 <= k < pre.drop_last().len() implies #[trigger] pre.drop_last()[k].id
                    != p.id by {
                    assert(pre.drop_last()[k] == ps@[k]);
                }
            }
            let region_id = match p.target.resolve_region_id(regions.as_slice()) {
                Ok(id) => id,
                Err(e) => {
                    proof {
                        lemma_parameters_error_stays(ps@, rs, i + 1);
                    }
                    return Err(e);
                },
            };
            let mut j: usize = 0;
            while j < i
                invariant
                    i < ps@.len(),
                    j <= i,
                    pre == ps@.take(i + 1),
                    pre.drop_last() == ps@.take(i as int),
                    pre.last() == ps@[i as int],
                    *p == ps@[i as int],
                    rs == regions@,
                    rs == topology.spec_regions(),
                    ps@ == self.spec_parameters(),
                    materials_error(ms@, rs) is None,
                    ms@ == self.spec_materials(),
                    parameters_error(ps@.take(i as int), rs) is None,
                    !exists|k: int| 0 <= k < pre.drop_last().len() && #[trigger] pre.drop_last()[k].id
                        == p.id,
                    resolved_parameters@.len() == i,
                    forall|k: int|
                        0 <= k < i ==> resolves_parameter(#[trigger] resolved_parameters@[k], ps@[k], rs),
                    Ok::<RegionId, AnnotationError>(region_id) == resolve(ps@[i as int].target, rs),
                    forall|k: int|
                        0 <= k < j ==> !(resolve(#[trigger] ps@[k].target, rs) == Ok::<
                            RegionId,
                            AnnotationError,
                        >(region_id) && ps@[k].name@ == ps@[i as int].name@),
                decreases i - j,
            {
                assert(resolves_parameter(resolved_parameters@[j as int], ps@[j as int], rs));
                if resolved_parameters[j].region_id == region_id && ps[j].name == p.name {
                    assert(pre.drop_last()[j as int] == ps@[j as int]);
                    proof {
                        lemma_parameters_error_stays(ps@, rs, i + 1);
                    }
                    return Err(
                        AnnotationError::DuplicateParameterForTarget {
                            region_id,
                            name: p.name.clone(),
                        },
                    );
                }
                j += 1;
            }
            assert(!exists|k: int|
                0 <= k < pre.drop_last().len() && resolve(#[trigger] pre.drop_last()[k].target, rs)
                    == Ok::<RegionId, AnnotationError>(region_id) && pre.drop_last()[k].name@
                    == p.name@) by {
                assert forall|k: int| 0 <= k < pre.drop_last().len() implies !(resolve(
                    #[trigger] pre.drop_last()[k].target,
                    rs,
                ) == Ok::<RegionId, AnnotationError>(region_id) && pre.drop_last()[k].name@
                    == p.name@) by {
                    assert(pre.drop_last()[k] == ps@[k]);
                }
            }
            resolved_parameters.push(
                ResolvedParameterAssignment {
                    id: p.id,
                    name: p.name.clone(),
                    region_id,
                    value: p.value.copy(),
                    units: copy_units(&p.units),
                },
            );
            i += 1;
        }
        assert(ps@.take(ps@.len() as int) =~= ps@);
        Ok(ResolvedAnnotations { materials: resolved_materials, parameters: resolved_parameters })
    }
}

/// The last material assignment on `region`, if any.
pub open spec fn last_material_on(ms: Seq<ResolvedMaterialAssignment>, region: RegionId) -> Option<
    ResolvedMaterialAssignment,
>
    decreases ms.len(),
{
    if ms.len() == 0 {
        None
    } else if ms.last().region_id == region {
        Some(ms.last())
    } else {
        last_material_on(ms.drop_last(), region)
    }
}

impl ResolvedAnnotations {
    /// The material of each region: where several assignments name the
    /// same region, the last one.
    pub fn material_by_region(&self) -> (m: BTreeMap<RegionId, &ResolvedMaterialAssignment>)
        ensures
            forall|r: RegionId|
                #![trigger m@.contains_key(r)]
                m@.contains_key(r) <==> last_material_on(self.materials@, r) is Some,
            forall|r: RegionId|
                #[trigger] m@.contains_key(r) ==> Some(*m@[r]) == last_material_on(
                    self.materials@,
                    r,
                ),
    {
        let ghost ms = self.materials@;
        let mut m: BTreeMap<RegionId, &ResolvedMaterialAssignment> = BTreeMap::new();
        let mut k: usize = 0;
        while k < self.materials.len()
            invariant
                k <= ms.len(),
                ms == self.materials@,
                forall|r: RegionId|
                    #![trigger m@.contains_key(r)]
                    m@.contains_key(r) <==> last_material_on(ms.take(k as int), r) is Some,
                forall|r: RegionId|
                    #[trigger] m@.contains_key(r) ==> Some(*m@[r]) == last_material_on(
                        ms.take(k as int),
                        r,
                    ),
            decreases ms.len() - k,
        {
            let material = &self.materials[k];
            m.insert(material.region_id, material);
            assert(ms.take(k + 1).drop_last() =~= ms.take(k as int));
            k += 1;
        }
        assert(ms.take(ms.len() as int) =~= ms);
        m
    }
}

} // verus!
