use kepler::annotation::{
    AnnotationError, EntitySelector, GeometryAnnotations, ParameterAssignment, ParameterValue,
    ResolvedAnnotations, ResolvedMaterialAssignment,
};
use kepler::condition::{
    Condition, ConditionError, ConditionKind, ConditionSet, ResolvedCondition, ResolvedConditionSet,
};
use kepler::mesh::{Cell, ElementKind, EntityDimension, MeshTopology, PointD, Region};
use kepler::numbers::Decimal;

fn pressure(id: usize, region_id: usize) -> ResolvedCondition {
    ResolvedCondition {
        id,
        name: format!("c{id}"),
        region_id,
        kind: ConditionKind::Pressure { value: Decimal::from_text("1").unwrap(), units: None },
    }
}

#[test]
fn conditions_group_by_region_in_order() {
    let set = ResolvedConditionSet {
        conditions: vec![pressure(0, 2), pressure(1, 0), pressure(2, 2), pressure(3, 5)],
    };
    let groups = set.by_region();
    assert_eq!(groups.keys().copied().collect::<Vec<_>>(), vec![0, 2, 5]);
    let ids: Vec<usize> = groups[&2].iter().map(|c| c.id).collect();
    assert_eq!(ids, vec![0, 2]);
    assert_eq!(groups[&0].len(), 1);
    assert!(ResolvedConditionSet { conditions: vec![] }.by_region().is_empty());
}

fn material(id: usize, region_id: usize) -> ResolvedMaterialAssignment {
    ResolvedMaterialAssignment { id, name: format!("m{id}"), region_id, properties: vec![] }
}

#[test]
fn later_material_of_a_region_wins() {
    let annotations = ResolvedAnnotations {
        materials: vec![material(0, 1), material(1, 3), material(2, 1)],
        parameters: vec![],
    };
    let by_region = annotations.material_by_region();
    assert_eq!(by_region.len(), 2);
    assert_eq!(by_region[&1].id, 2);
    assert_eq!(by_region[&3].name, "m1");
}


fn square() -> MeshTopology {
    let p = |x: &str, y: &str| PointD::new(vec![Decimal::from_text(x).unwrap(), Decimal::from_text(y).unwrap()]);
    MeshTopology::with_regions(
        2,
        vec![p("0", "0"), p("1", "0"), p("1", "1")],
        vec![
            Cell::new(ElementKind::Tri3, vec![0, 1, 2]).with_region(0),
            Cell::new(ElementKind::Line2, vec![0, 1]).with_region(1),
        ],
        vec![
            Region::new(0, "plate".to_owned(), EntityDimension::Surface),
            Region::new(1, "edge".to_owned(), EntityDimension::Curve),
        ],
    )
    .unwrap()
}

#[test]
fn conditions_resolve_regions_by_name() {
    let set = ConditionSet::new().with_condition(Condition::new(
        4,
        "load",
        EntitySelector::region_name("edge"),
        ConditionKind::Pressure { value: Decimal::from_text("2").unwrap(), units: None },
    ));
    let resolved = set.validate_for_topology(&square()).unwrap();
    assert_eq!(resolved.conditions.len(), 1);
    assert_eq!(resolved.conditions[0].region_id, 1);
    let missing = ConditionSet::new().with_condition(Condition::new(
        5,
        "load",
        EntitySelector::region_name("hole"),
        ConditionKind::Pressure { value: Decimal::from_text("2").unwrap(), units: None },
    ));
    assert_eq!(
        missing.validate_for_topology(&square()),
        Err(ConditionError::Selector(AnnotationError::UnknownRegionName { name: "hole".to_owned() }))
    );
}

#[test]
fn parameters_resolve_to_their_regions() {
    let annotations = GeometryAnnotations::new().with_parameter(ParameterAssignment::new(
        1,
        "thickness",
        EntitySelector::region_name("plate"),
        ParameterValue::Scalar(Decimal::from_text("0.1").unwrap()),
        Some("m"),
    ));
    let resolved = annotations.validate_for_topology(&square()).unwrap();
    assert_eq!(resolved.parameters.len(), 1);
    assert_eq!(resolved.parameters[0].region_id, 0);
    assert_eq!(resolved.parameters[0].units.as_deref(), Some("m"));
}
