//! Abaqus input decks (`.inp`): keyword lines starting with `*`, data lines
//! of comma-separated values, `**` comments and `!` trailing comments.
use vstd::prelude::*;

use crate::annotation::{EntitySelector, GeometryAnnotations, MaterialAssignment};
use crate::io::{decimal_field, parse_decimal, parse_usize, usize_field, FileIoError, IoFault};
use crate::mesh::{
    cell_views, cell_views_error, region_ids, Cell, CellView, ElementKind, EntityDimension, Mesh,
    Point2,
};
use crate::numbers::{parse_usize_chars, usize_literal, Decimal};
use crate::text::{
    before_char, char_views, chars_before, chars_of, eq_ignore_case, is_literal, lines_of,
    same_ignoring_case, split_chars, split_lines, split_on, split_once, starts_with, string_from,
    trim, trim_chars, trim_matches, trim_matches_chars, upper, upper_chars,
};

verus! {

/// An element as the deck lists it: its type name, its nodes (numbered
/// from one) and the element set named on its keyword line.
#[derive(Debug, PartialEq)]
pub struct AbaqusElement {
    pub kind: String,
    pub nodes: Vec<usize>,
    pub element_set: Option<String>,
}

/// A material and the properties the deck gives it.
#[derive(Debug, PartialEq)]
pub struct AbaqusMaterial {
    pub young_modulus: Option<Decimal>,
    pub poisson_ratio: Option<Decimal>,
    pub density: Option<Decimal>,
    pub plastic_points: Vec<[Decimal; 2]>,
}

impl Default for AbaqusMaterial {
    /// A material with no properties.
    fn default() -> (m: Self)
        ensures
            m.young_modulus is None,
            m.poisson_ratio is None,
            m.density is None,
            m.plastic_points@.len() == 0,
    {
        AbaqusMaterial { young_modulus: None, poisson_ratio: None, density: None, plastic_points: Vec::new() }
    }
}

/// A prescribed value for one degree of freedom of one node (numbered from zero).
#[derive(Debug, PartialEq)]
pub struct AbaqusBoundary {
    pub node: usize,
    pub component: usize,
    pub value: Decimal,
}

/// An analysis step: its name and its kind (`generic`, `static`, `dynamic`).
#[derive(Debug, PartialEq)]
pub struct AbaqusStep {
    pub name: String,
    pub kind: String,
}

/// What a deck describes. The named sets and the materials are kept in
/// ascending order of their names, each name once.
#[derive(Debug, PartialEq)]
pub struct AbaqusModel {
    pub nodes: Vec<[Decimal; 3]>,
    pub elements: Vec<AbaqusElement>,
    pub node_sets: Vec<(String, Vec<usize>)>,
    pub element_sets: Vec<(String, Vec<usize>)>,
    pub materials: Vec<(String, AbaqusMaterial)>,
    pub boundaries: Vec<AbaqusBoundary>,
    pub steps: Vec<AbaqusStep>,
}

/// An element by its texts and numbers.
pub struct ElementView {
    pub kind: Seq<char>,
    pub nodes: Seq<usize>,
    pub set: Option<Seq<char>>,
}

/// A material by its texts.
pub struct MaterialView {
    pub young: Option<Seq<char>>,
    pub poisson: Option<Seq<char>>,
    pub density: Option<Seq<char>>,
    pub plastic: Seq<(Seq<char>, Seq<char>)>,
}

/// What has been read of a deck: the model so far, and the keyword context
/// that data lines are read in.
pub struct AbaqusState {
    pub nodes: Seq<(Seq<char>, Seq<char>, Seq<char>)>,
    pub elements: Seq<ElementView>,
    pub node_sets: Seq<(Seq<char>, Seq<usize>)>,
    pub element_sets: Seq<(Seq<char>, Seq<usize>)>,
    pub materials: Seq<(Seq<char>, MaterialView)>,
    pub boundaries: Seq<(usize, usize, Seq<char>)>,
    pub steps: Seq<(Seq<char>, Seq<char>)>,
    pub keyword: Seq<char>,
    pub set_name: Option<Seq<char>>,
    pub material: Option<Seq<char>>,
    pub step: Option<Seq<char>>,
    pub pending_kind: Seq<char>,
    pub pending_set: Option<Seq<char>>,
}

/// The result of reading lines: the state reached, the first error, or a
/// set or boundary entry naming node or element `0`, which the deck's
/// one-based numbering cannot shift down.
pub enum DeckOutcome {
    Read(AbaqusState),
    Failed(IoFault),
    ZeroIndex,
}

/// `a` comes before `b` in the order of `String`: by character codes, a
/// prefix first.
pub open spec fn name_less(a: Seq<char>, b: Seq<char>) -> bool
    decreases a.len(),
{
    if b.len() == 0 {
        false
    } else if a.len() == 0 {
        true
    } else if a[0] != b[0] {
        (a[0] as u32) < (b[0] as u32)
    } else {
        name_less(a.drop_first(), b.drop_first())
    }
}

/// The names of named entries.
pub open spec fn names_of<V>(entries: Seq<(Seq<char>, V)>) -> Seq<Seq<char>> {
    entries.map_values(|e: (Seq<char>, V)| e.0)
}

/// Names strictly ascending.
pub open spec fn names_ascending(names: Seq<Seq<char>>) -> bool {
    forall|i: int, j: int| 0 <= i < j < names.len() ==> name_less(names[i], names[j])
}

/// The position of the first name that does not come before `name`: where
/// `name` is, or where it would go.
pub open spec fn name_slot(names: Seq<Seq<char>>, name: Seq<char>) -> int
    decreases names.len(),
{
    if names.len() == 0 {
        0
    } else if name_less(names[0], name) {
        1 + name_slot(names.drop_first(), name)
    } else {
        0
    }
}

/// Applies `f` to the entry named `name`, first adding one with value
/// `default` in its place in the order if there is none (what
/// `BTreeMap::entry(..).or_default()` followed by an update does).
pub open spec fn upsert<V>(
    entries: Seq<(Seq<char>, V)>,
    name: Seq<char>,
    default: V,
    f: spec_fn(V) -> V,
) -> Seq<(Seq<char>, V)> {
    let i = name_slot(names_of(entries), name);
    if i < entries.len() && entries[i].0 == name {
        entries.update(i, (name, f(entries[i].1)))
    } else {
        entries.insert(i, (name, f(default)))
    }
}

/// A material with no properties.
pub open spec fn blank_material() -> MaterialView {
    MaterialView { young: None, poisson: None, density: None, plastic: seq![] }
}

/// A change a line makes to a material.
pub enum MaterialChange {
    Keep,
    Elastic(Seq<char>, Seq<char>),
    Plastic(Seq<char>, Seq<char>),
    Density(Seq<char>),
}

/// Applies a change to a material.
pub open spec fn change_material(m: MaterialView, c: MaterialChange) -> MaterialView {
    match c {
        MaterialChange::Keep => m,
        MaterialChange::Elastic(a, b) => MaterialView { young: Some(a), poisson: Some(b), ..m },
        MaterialChange::Plastic(a, b) => MaterialView { plastic: m.plastic.push((a, b)), ..m },
        MaterialChange::Density(d) => MaterialView { density: Some(d), ..m },
    }
}

/// The change as a function on materials.
pub open spec fn material_change(c: MaterialChange) -> spec_fn(MaterialView) -> MaterialView {
    |m: MaterialView| change_material(m, c)
}

/// A material left as it is.
pub open spec fn keep_material() -> spec_fn(MaterialView) -> MaterialView {
    material_change(MaterialChange::Keep)
}

/// Appends members to a set.
pub open spec fn append_items(items: Seq<usize>) -> spec_fn(Seq<usize>) -> Seq<usize> {
    |v: Seq<usize>| v + items
}

/// The value of `key=value` among the comma-separated parts, the key
/// compared without regard to ASCII case, the value trimmed and stripped
/// of quotes.
pub open spec fn parameter_in(parts: Seq<Seq<char>>, key: Seq<char>) -> Option<Seq<char>>
    decreases parts.len(),
{
    if parts.len() == 0 {
        None
    } else if let Some((name, value)) = split_once(trim(parts[0]), '=') {
        if same_ignoring_case(trim(name), key) {
            Some(trim_matches(trim(value), '"'))
        } else {
            parameter_in(parts.drop_first(), key)
        }
    } else {
        parameter_in(parts.drop_first(), key)
    }
}

/// The value of parameter `key` on a keyword line.
pub open spec fn parameter(line: Seq<char>, key: Seq<char>) -> Option<Seq<char>> {
    parameter_in(split_on(line, ','), key)
}

/// The first step with the name, if any.
pub open spec fn step_named(steps: Seq<(Seq<char>, Seq<char>)>, name: Seq<char>) -> Option<int>
    decreases steps.len(),
{
    if steps.len() == 0 {
        None
    } else if let Some(i) = step_named(steps.drop_last(), name) {
        Some(i)
    } else if steps.last().0 == name {
        Some(steps.len() - 1)
    } else {
        None
    }
}

/// The current step, if it has a name some step has, given the kind.
pub open spec fn mark_step(st: AbaqusState, kind: Seq<char>) -> AbaqusState {
    if let Some(name) = st.step {
        if let Some(i) = step_named(st.steps, name) {
            AbaqusState { steps: st.steps.update(i, (name, kind)), ..st }
        } else {
            st
        }
    } else {
        st
    }
}

/// The keyword of a keyword line: up to the first comma, trimmed, in upper case.
pub open spec fn keyword_of(line: Seq<char>) -> Seq<char> {
    upper(trim(before_char(line.drop_first(), ',')))
}

/// How a keyword line (it starts with one `*`) changes the state.
pub open spec fn keyword_line(st: AbaqusState, line: Seq<char>) -> AbaqusState {
    let kw = keyword_of(line);
    let set_name = match parameter(line, "NSET"@) {
        Some(n) => Some(n),
        None => parameter(line, "ELSET"@),
    };
    let pending_kind = match parameter(line, "TYPE"@) {
        Some(t) => t,
        None => "UNKNOWN"@,
    };
    let st1 = AbaqusState {
        keyword: kw,
        set_name,
        pending_kind,
        pending_set: parameter(line, "ELSET"@),
        ..st
    };
    if kw == "MATERIAL"@ {
        let m = parameter(line, "NAME"@);
        AbaqusState {
            material: m,
            materials: match m {
                Some(n) => upsert(st1.materials, n, blank_material(), keep_material()),
                None => st1.materials,
            },
            ..st1
        }
    } else if kw == "STEP"@ {
        let s = parameter(line, "NAME"@);
        AbaqusState {
            step: s,
            steps: match s {
                Some(n) => st1.steps.push((n, "generic"@)),
                None => st1.steps,
            },
            ..st1
        }
    } else if kw == "STATIC"@ {
        mark_step(st1, "static"@)
    } else if kw == "DYNAMIC"@ {
        mark_step(st1, "dynamic"@)
    } else {
        st1
    }
}

/// The comma-separated values of a data line, each trimmed.
pub open spec fn fields_of(line: Seq<char>) -> Seq<Seq<char>> {
    split_on(line, ',').map_values(|p: Seq<char>| trim(p))
}

/// Reads each token as a `usize`, stopping at the first that is not one.
pub open spec fn usize_fields(line: usize, toks: Seq<Seq<char>>) -> Result<Seq<usize>, IoFault>
    decreases toks.len(),
{
    if toks.len() == 0 {
        Ok(seq![])
    } else {
        match usize_fields(line, toks.drop_last()) {
            Err(e) => Err(e),
            Ok(vs) => match usize_field(line, toks.last()) {
                Err(e) => Err(e),
                Ok(v) => Ok(vs.push(v)),
            },
        }
    }
}

/// `n - 1`, or `0` for `0`.
pub open spec fn minus_one(n: usize) -> usize {
    if n == 0 {
        0
    } else {
        (n - 1) as usize
    }
}

/// A range token `first:last` (numbered from one): the numbers from zero,
/// if both parts are numbers; parts after a second colon are ignored.
pub open spec fn range_token(tok: Seq<char>) -> Option<(usize, usize)> {
    let parts = split_on(tok, ':');
    if parts.len() < 2 {
        None
    } else if let (Some(a), Some(b)) = (usize_literal(parts[0]), usize_literal(parts[1])) {
        Some((minus_one(a), minus_one(b)))
    } else {
        None
    }
}

/// `first, first + 1, ..., last` (nothing when `last < first`).
pub open spec fn inclusive_range(first: usize, last: usize) -> Seq<usize> {
    Seq::new(if last >= first { (last - first + 1) as nat } else { 0 }, |k: int| (first + k) as usize)
}

/// The members a set line lists, in order: ranges expanded, single numbers
/// shifted to count from zero.
pub enum SetItems {
    Items(Seq<usize>),
    Failed(IoFault),
    ZeroIndex,
}

/// What the tokens of a set line give.
pub open spec fn set_items(line: usize, toks: Seq<Seq<char>>) -> SetItems
    decreases toks.len(),
{
    if toks.len() == 0 {
        SetItems::Items(seq![])
    } else {
        match set_items(line, toks.drop_last()) {
            SetItems::Items(items) => if let Some((a, b)) = range_token(toks.last()) {
                SetItems::Items(items + inclusive_range(a, b))
            } else {
                match usize_field(line, toks.last()) {
                    Err(e) => SetItems::Failed(e),
                    Ok(v) => if v == 0 {
                        SetItems::ZeroIndex
                    } else {
                        SetItems::Items(items.push((v - 1) as usize))
                    },
                }
            },
            other => other,
        }
    }
}

/// The boundary entries of one line: node, each component from `first` to
/// `last`, one value.
pub open spec fn boundary_entries(node: usize, first: usize, last: usize, value: Seq<char>) -> Seq<
    (usize, usize, Seq<char>),
> {
    inclusive_range(first, last).map_values(|c: usize| (node, c, value))
}

/// A `*NODE` data line: `id, x, y, z`, ids running on from one.
pub open spec fn node_data(st: AbaqusState, number: usize, t: Seq<Seq<char>>) -> DeckOutcome {
    if t.len() < 4 {
        DeckOutcome::Failed(IoFault::InvalidLine { line: number, expected: "node id, x, y, z"@ })
    } else {
        match (
            usize_field(number, t[0]),
            decimal_field(number, t[1]),
            decimal_field(number, t[2]),
            decimal_field(number, t[3]),
        ) {
            (Err(e), _, _, _) => DeckOutcome::Failed(e),
            (Ok(_), Err(e), _, _) => DeckOutcome::Failed(e),
            (Ok(_), Ok(_), Err(e), _) => DeckOutcome::Failed(e),
            (Ok(_), Ok(_), Ok(_), Err(e)) => DeckOutcome::Failed(e),
            (Ok(id), Ok(x), Ok(y), Ok(z)) => if id != st.nodes.len() + 1 {
                DeckOutcome::Failed(
                    IoFault::NonContiguousId { expected: (st.nodes.len() + 1) as usize, found: id },
                )
            } else {
                DeckOutcome::Read(AbaqusState { nodes: st.nodes.push((x, y, z)), ..st })
            },
        }
    }
}

/// An `*ELEMENT` data line: `id, node, node, ...`, in the type and set of
/// the keyword line.
pub open spec fn element_data(st: AbaqusState, number: usize, t: Seq<Seq<char>>) -> DeckOutcome {
    match usize_fields(number, t.drop_first()) {
        Err(e) => DeckOutcome::Failed(e),
        Ok(ns) => DeckOutcome::Read(
            AbaqusState {
                elements: st.elements.push(
                    ElementView { kind: st.pending_kind, nodes: ns, set: st.pending_set },
                ),
                ..st
            },
        ),
    }
}

/// An `*NSET` or `*ELSET` data line: members appended to the set named on
/// the keyword line.
pub open spec fn set_data(st: AbaqusState, number: usize, t: Seq<Seq<char>>) -> DeckOutcome {
    let node_set = st.keyword == "NSET"@;
    match st.set_name {
        None => DeckOutcome::Failed(
            IoFault::InvalidLine {
                line: number,
                expected: if node_set {
                    "NSET name on keyword line"@
                } else {
                    "ELSET name on keyword line"@
                },
            },
        ),
        Some(n) => match set_items(number, t) {
            SetItems::Failed(e) => DeckOutcome::Failed(e),
            SetItems::ZeroIndex => DeckOutcome::ZeroIndex,
            SetItems::Items(items) => if node_set {
                DeckOutcome::Read(
                    AbaqusState {
                        node_sets: upsert(st.node_sets, n, seq![], append_items(items)),
                        ..st
                    },
                )
            } else {
                DeckOutcome::Read(
                    AbaqusState {
                        element_sets: upsert(st.element_sets, n, seq![], append_items(items)),
                        ..st
                    },
                )
            },
        },
    }
}

/// The value of a boundary line: its fourth field, or zero.
pub open spec fn boundary_value(number: usize, t: Seq<Seq<char>>) -> Result<Seq<char>, IoFault> {
    if t.len() > 3 {
        decimal_field(number, t[3])
    } else {
        Ok(seq!['0'])
    }
}

/// A `*BOUNDARY` data line: `node, first_dof, last_dof[, value]`.
pub open spec fn boundary_data(st: AbaqusState, number: usize, t: Seq<Seq<char>>) -> DeckOutcome {
    if t.len() < 3 {
        DeckOutcome::Failed(
            IoFault::InvalidLine { line: number, expected: "node, first_dof, last_dof, value"@ },
        )
    } else {
        match usize_field(number, t[0]) {
            Err(e) => DeckOutcome::Failed(e),
            Ok(node) => if node == 0 {
                DeckOutcome::ZeroIndex
            } else {
                match (usize_field(number, t[1]), usize_field(number, t[2])) {
                    (Err(e), _) => DeckOutcome::Failed(e),
                    (Ok(_), Err(e)) => DeckOutcome::Failed(e),
                    (Ok(first), Ok(last)) => match boundary_value(number, t) {
                        Err(e) => DeckOutcome::Failed(e),
                        Ok(v) => DeckOutcome::Read(
                            AbaqusState {
                                boundaries: st.boundaries + boundary_entries(
                                    (node - 1) as usize,
                                    first,
                                    last,
                                    v,
                                ),
                                ..st
                            },
                        ),
                    },
                }
            },
        }
    }
}

/// An `*ELASTIC` or `*PLASTIC` data line of the current material: Young's
/// modulus and Poisson's ratio, or a stress and strain point.
pub open spec fn material_data(st: AbaqusState, number: usize, t: Seq<Seq<char>>) -> DeckOutcome {
    match st.material {
        None => DeckOutcome::Read(st),
        Some(n) => if t.len() < 2 {
            DeckOutcome::Read(st)
        } else {
            match (decimal_field(number, t[0]), decimal_field(number, t[1])) {
                (Err(e), _) => DeckOutcome::Failed(e),
                (Ok(_), Err(e)) => DeckOutcome::Failed(e),
                (Ok(a), Ok(b)) => {
                    let change = if st.keyword == "ELASTIC"@ {
                        MaterialChange::Elastic(a, b)
                    } else {
                        MaterialChange::Plastic(a, b)
                    };
                    DeckOutcome::Read(
                        AbaqusState {
                            materials: upsert(
                                st.materials,
                                n,
                                blank_material(),
                                material_change(change),
                            ),
                            ..st
                        },
                    )
                },
            }
        },
    }
}

/// A `*DENSITY` data line of the current material.
pub open spec fn density_data(st: AbaqusState, number: usize, t: Seq<Seq<char>>) -> DeckOutcome {
    match st.material {
        None => DeckOutcome::Read(st),
        Some(n) => match decimal_field(number, t[0]) {
            Err(e) => DeckOutcome::Failed(e),
            Ok(d) => DeckOutcome::Read(
                AbaqusState {
                    materials: upsert(
                        st.materials,
                        n,
                        blank_material(),
                        material_change(MaterialChange::Density(d)),
                    ),
                    ..st
                },
            ),
        },
    }
}

/// How a data line changes the state, by the keyword it follows.
pub open spec fn data_line(st: AbaqusState, number: usize, line: Seq<char>) -> DeckOutcome {
    let t = fields_of(line);
    let kw = st.keyword;
    if kw == "NODE"@ {
        node_data(st, number, t)
    } else if kw == "ELEMENT"@ {
        element_data(st, number, t)
    } else if kw == "NSET"@ || kw == "ELSET"@ {
        set_data(st, number, t)
    } else if kw == "BOUNDARY"@ {
        boundary_data(st, number, t)
    } else if kw == "ELASTIC"@ || kw == "PLASTIC"@ {
        material_data(st, number, t)
    } else if kw == "DENSITY"@ {
        density_data(st, number, t)
    } else {
        DeckOutcome::Read(st)
    }
}

/// How one line (numbered from one) changes the state.
pub open spec fn deck_line(st: AbaqusState, number: usize, raw: Seq<char>) -> DeckOutcome {
    let line = trim(before_char(raw, '!'));
    if line.len() == 0 {
        DeckOutcome::Read(st)
    } else if line.len() >= 2 && line[0] == '*' && line[1] == '*' {
        DeckOutcome::Read(st)
    } else if line[0] == '*' {
        DeckOutcome::Read(keyword_line(st, line))
    } else {
        data_line(st, number, line)
    }
}

/// The state before any line.
pub open spec fn deck_start() -> AbaqusState {
    AbaqusState {
        nodes: seq![],
        elements: seq![],
        node_sets: seq![],
        element_sets: seq![],
        materials: seq![],
        boundaries: seq![],
        steps: seq![],
        keyword: seq![],
        set_name: None,
        material: None,
        step: None,
        pending_kind: "UNKNOWN"@,
        pending_set: None,
    }
}

/// What the lines give, read in order.
pub open spec fn deck_lines(ls: Seq<Seq<char>>) -> DeckOutcome
    decreases ls.len(),
{
    if ls.len() == 0 {
        DeckOutcome::Read(deck_start())
    } else {
        match deck_lines(ls.drop_last()) {
            DeckOutcome::Read(st) => deck_line(st, ls.len() as usize, ls.last()),
            other => other,
        }
    }
}

/// What a deck gives.
pub open spec fn deck(s: Seq<char>) -> DeckOutcome {
    deck_lines(lines_of(s))
}

/// The texts of an optional number.
pub open spec fn decimal_opt(o: Option<Decimal>) -> Option<Seq<char>> {
    match o {
        Some(d) => Some(d@),
        None => None,
    }
}

/// The characters of an optional string.
pub open spec fn string_opt(o: Option<String>) -> Option<Seq<char>> {
    match o {
        Some(s) => Some(s@),
        None => None,
    }
}

/// The characters of optional characters.
pub open spec fn chars_opt(o: Option<Vec<char>>) -> Option<Seq<char>> {
    match o {
        Some(s) => Some(s@),
        None => None,
    }
}

/// A material by its texts.
pub open spec fn material_view(m: AbaqusMaterial) -> MaterialView {
    MaterialView {
        young: decimal_opt(m.young_modulus),
        poisson: decimal_opt(m.poisson_ratio),
        density: decimal_opt(m.density),
        plastic: m.plastic_points@.map_values(|p: [Decimal; 2]| (p@[0]@, p@[1]@)),
    }
}

/// Named sets by their texts.
pub open spec fn set_views(v: Seq<(String, Vec<usize>)>) -> Seq<(Seq<char>, Seq<usize>)> {
    v.map_values(|e: (String, Vec<usize>)| (e.0@, e.1@))
}

/// Named materials by their texts.
pub open spec fn material_views(v: Seq<(String, AbaqusMaterial)>) -> Seq<(Seq<char>, MaterialView)> {
    v.map_values(|e: (String, AbaqusMaterial)| (e.0@, material_view(e.1)))
}

/// Node coordinates by their texts.
pub open spec fn node_views(v: Seq<[Decimal; 3]>) -> Seq<(Seq<char>, Seq<char>, Seq<char>)> {
    v.map_values(|n: [Decimal; 3]| (n@[0]@, n@[1]@, n@[2]@))
}

/// Elements by their texts.
pub open spec fn element_views(v: Seq<AbaqusElement>) -> Seq<ElementView> {
    v.map_values(
        |e: AbaqusElement| ElementView { kind: e.kind@, nodes: e.nodes@, set: string_opt(e.element_set) },
    )
}

/// Boundary entries by their texts.
pub open spec fn boundary_views(v: Seq<AbaqusBoundary>) -> Seq<(usize, usize, Seq<char>)> {
    v.map_values(|b: AbaqusBoundary| (b.node, b.component, b.value@))
}

/// Steps by their texts.
pub open spec fn step_views(v: Seq<AbaqusStep>) -> Seq<(Seq<char>, Seq<char>)> {
    v.map_values(|s: AbaqusStep| (s.name@, s.kind@))
}

/// The model part of a state equals the model.
pub open spec fn model_matches(m: AbaqusModel, st: AbaqusState) -> bool {
    &&& node_views(m.nodes@) == st.nodes
    &&& element_views(m.elements@) == st.elements
    &&& set_views(m.node_sets@) == st.node_sets
    &&& set_views(m.element_sets@) == st.element_sets
    &&& material_views(m.materials@) == st.materials
    &&& boundary_views(m.boundaries@) == st.boundaries
    &&& step_views(m.steps@) == st.steps
}

/// No name comes before itself.
proof fn lemma_name_less_irreflexive(a: Seq<char>)
    ensures
        !name_less(a, a),
    decreases a.len(),
{
    if a.len() > 0 {
        lemma_name_less_irreflexive(a.drop_first());
    }
}

/// The order of names is transitive.
proof fn lemma_name_less_transitive(a: Seq<char>, b: Seq<char>, c: Seq<char>)
    requires
        name_less(a, b),
        name_less(b, c),
    ensures
        name_less(a, c),
    decreases a.len(),
{
    if a.len() > 0 && a[0] == b[0] && b[0] == c[0] {
        lemma_name_less_transitive(a.drop_first(), b.drop_first(), c.drop_first());
    }
}

/// Of two different names one comes before the other.
proof fn lemma_name_less_total(a: Seq<char>, b: Seq<char>)
    requires
        a != b,
    ensures
        name_less(a, b) || name_less(b, a),
    decreases a.len(),
{
    if a.len() == 0 && b.len() == 0 {
        assert(a =~= b);
    } else if a.len() > 0 && b.len() > 0 {
        if a[0] == b[0] {
            let ta = a.drop_first();
            let tb = b.drop_first();
            if ta =~= tb {
                assert(a =~= b) by {
                    assert(ta.len() == tb.len());
                    assert forall|k: int| 0 <= k < a.len() implies a[k] == b[k] by {
                        if k > 0 {
                            assert(a[k] == ta[k - 1]);
                            assert(b[k] == tb[k - 1]);
                        }
                    }
                }
            } else {
                lemma_name_less_total(ta, tb);
            }
        } else {
            vstd::utf8::char_u32_cast(a[0], a[0] as u32);
            vstd::utf8::char_u32_cast(b[0], b[0] as u32);
        }
    }
}

/// The slot of a name: every name before it comes before the name, the
/// one at it does not.
proof fn lemma_name_slot_bounds(names: Seq<Seq<char>>, name: Seq<char>)
    ensures
        0 <= name_slot(names, name) <= names.len(),
        forall|j: int| 0 <= j < name_slot(names, name) ==> name_less(#[trigger] names[j], name),
        name_slot(names, name) < names.len() ==> !name_less(names[name_slot(names, name)], name),
    decreases names.len(),
{
    if names.len() > 0 && name_less(names[0], name) {
        let rest = names.drop_first();
        lemma_name_slot_bounds(rest, name);
        assert forall|j: int| 0 <= j < name_slot(names, name) implies name_less(
            #[trigger] names[j],
            name,
        ) by {
            if j > 0 {
                assert(names[j] == rest[j - 1]);
            }
        }
        if name_slot(names, name) < names.len() {
            assert(names[name_slot(names, name)] == rest[name_slot(rest, name)]);
        }
    }
}

/// Adding or updating an entry keeps the names strictly ascending, and the
/// name is then among them.
pub proof fn lemma_upsert_keeps_names_ascending<V>(
    entries: Seq<(Seq<char>, V)>,
    name: Seq<char>,
    default: V,
    f: spec_fn(V) -> V,
)
    requires
        names_ascending(names_of(entries)),
    ensures
        names_ascending(names_of(upsert(entries, name, default, f))),
        names_of(upsert(entries, name, default, f)).contains(name),
{
    let names = names_of(entries);
    let i = name_slot(names, name);
    lemma_name_slot_bounds(names, name);
    let out = upsert(entries, name, default, f);
    if i < entries.len() && entries[i].0 == name {
        assert(names_of(out) =~= names);
        assert(names_of(out)[i] == name);
    } else {
        let grown = names.insert(i, name);
        assert(names_of(out) =~= grown);
        assert(grown[i] == name);
        if i < names.len() {
            assert(names[i] != name);
            lemma_name_less_total(names[i], name);
        }
        assert forall|p: int, q: int| 0 <= p < q < grown.len() implies name_less(
            grown[p],
            grown[q],
        ) by {
            if q < i {
                assert(grown[p] == names[p] && grown[q] == names[q]);
            } else if q == i {
                assert(grown[p] == names[p]);
            } else if p < i {
                assert(grown[p] == names[p] && grown[q] == names[q - 1]);
            } else if p == i {
                assert(grown[q] == names[q - 1]);
                if q - 1 > i {
                    lemma_name_less_transitive(name, names[i], names[q - 1]);
                }
            } else {
                assert(grown[p] == names[p - 1] && grown[q] == names[q - 1]);
            }
        }
    }
}

/// The named sets and the materials are each in strictly ascending order of
/// their names.
pub open spec fn names_in_order(st: AbaqusState) -> bool {
    &&& names_ascending(names_of(st.node_sets))
    &&& names_ascending(names_of(st.element_sets))
    &&& names_ascending(names_of(st.materials))
}

proof fn lemma_keyword_line_keeps_order(st: AbaqusState, line: Seq<char>)
    requires
        names_in_order(st),
    ensures
        names_in_order(keyword_line(st, line)),
{
    if let Some(n) = parameter(line, "NAME"@) {
        lemma_upsert_keeps_names_ascending(st.materials, n, blank_material(), keep_material());
    }
}

proof fn lemma_deck_line_keeps_order(st: AbaqusState, number: usize, raw: Seq<char>)
    requires
        names_in_order(st),
    ensures
        deck_line(st, number, raw) matches DeckOutcome::Read(next) ==> names_in_order(next),
{
    let line = trim(before_char(raw, '!'));
    let t = fields_of(line);
    lemma_keyword_line_keeps_order(st, line);
    if let Some(n) = st.set_name {
        if let SetItems::Items(items) = set_items(number, t) {
            lemma_upsert_keeps_names_ascending(st.node_sets, n, seq![], append_items(items));
            lemma_upsert_keeps_names_ascending(st.element_sets, n, seq![], append_items(items));
        }
    }
    if let Some(n) = st.material {
        if t.len() >= 2 {
            if let (Ok(a), Ok(b)) = (decimal_field(number, t[0]), decimal_field(number, t[1])) {
                lemma_upsert_keeps_names_ascending(
                    st.materials,
                    n,
                    blank_material(),
                    material_change(MaterialChange::Elastic(a, b)),
                );
                lemma_upsert_keeps_names_ascending(
                    st.materials,
                    n,
                    blank_material(),
                    material_change(MaterialChange::Plastic(a, b)),
                );
            }
        }
        if let Ok(d) = decimal_field(number, t[0]) {
            lemma_upsert_keeps_names_ascending(
                st.materials,
                n,
                blank_material(),
                material_change(MaterialChange::Density(d)),
            );
        }
    }
}

/// However a deck is written, the node sets, element sets and materials
/// read from it are each in strictly ascending order of their names, each
/// name once.
pub proof fn lemma_deck_names_in_order(ls: Seq<Seq<char>>)
    ensures
        deck_lines(ls) matches DeckOutcome::Read(st) ==> names_in_order(st),
    decreases ls.len(),
{
    if ls.len() > 0 {
        lemma_deck_names_in_order(ls.drop_last());
        if let DeckOutcome::Read(st) = deck_lines(ls.drop_last()) {
            lemma_deck_line_keeps_order(st, ls.len() as usize, ls.last());
        }
    }
}

/// Whether `a` comes before `b` in the order of `String`.
fn name_less_exec(a: &[char], b: &[char]) -> (r: bool)
    ensures
        r == name_less(a@, b@),
{
    let mut i: usize = 0;
    assert(a@.skip(0) =~= a@);
    assert(b@.skip(0) =~= b@);
    while i < a.len() && i < b.len() && a[i] == b[i]
        invariant
            i <= a@.len(),
            i <= b@.len(),
            name_less(a@, b@) == name_less(a@.skip(i as int), b@.skip(i as int)),
        decreases a@.len() - i,
    {
        assert(a@.skip(i as int).drop_first() =~= a@.skip(i + 1));
        assert(b@.skip(i as int).drop_first() =~= b@.skip(i + 1));
        i += 1;
    }
    if i == b.len() {
        false
    } else if i == a.len() {
        true
    } else {
        (a[i] as u32) < (b[i] as u32)
    }
}

/// The names of string-named entries.
pub open spec fn string_names<V>(v: Seq<(String, V)>) -> Seq<Seq<char>> {
    v.map_values(|e: (String, V)| e.0@)
}

proof fn lemma_name_slot(names: Seq<Seq<char>>, name: Seq<char>, k: int)
    requires
        0 <= k <= names.len(),
        forall|j: int| 0 <= j < k ==> name_less(#[trigger] names[j], name),
        k == names.len() || !name_less(names[k], name),
    ensures
        name_slot(names, name) == k,
    decreases k,
{
    if k > 0 {
        assert(name_less(names[0], name));
        assert forall|j: int| 0 <= j < k - 1 implies name_less(#[trigger] names.drop_first()[j], name) by {
            assert(names.drop_first()[j] == names[j + 1]);
        }
        if k < names.len() {
            assert(names.drop_first()[k - 1] == names[k]);
        }
        lemma_name_slot(names.drop_first(), name, k - 1);
    }
}

/// Where `name` is, or would go, among entries in ascending order of names.
fn find_slot<V>(entries: &Vec<(String, V)>, name: &[char]) -> (r: usize)
    ensures
        r == name_slot(string_names(entries@), name@),
        r <= entries@.len(),
{
    let ghost names = string_names(entries@);
    let mut i: usize = 0;
    while i < entries.len()
        invariant
            i <= entries@.len(),
            names == string_names(entries@),
            forall|j: int| 0 <= j < i ==> name_less(#[trigger] names[j], name@),
        decreases entries@.len() - i,
    {
        let key = chars_of(entries[i].0.as_str());
        if !name_less_exec(key.as_slice(), name) {
            proof {
                lemma_name_slot(names, name@, i as int);
            }
            return i;
        }
        i += 1;
    }
    proof {
        lemma_name_slot(names, name@, i as int);
    }
    i
}

/// Whether an entry's name is `name`.
fn name_is(entry_name: &String, name: &[char]) -> (r: bool)
    ensures
        r == (entry_name@ == name@),
{
    let key = chars_of(entry_name.as_str());
    crate::text::same_chars(key.as_slice(), name)
}

/// Appends members to the set named `name`, adding the set first if needed.
fn upsert_set(entries: &mut Vec<(String, Vec<usize>)>, name: &[char], items: &Vec<usize>)
    ensures
        set_views(final(entries)@) == upsert(set_views(old(entries)@), name@, seq![], append_items(items@)),
{
    let ghost old_view = set_views(entries@);
    assert(string_names(entries@) =~= names_of(old_view));
    let i = find_slot(entries, name);
    if i < entries.len() && name_is(&entries[i].0, name) {
        let (key, mut members) = entries.remove(i);
        let mut j: usize = 0;
        let ghost start = members@;
        while j < items.len()
            invariant
                j <= items@.len(),
                members@ == start + items@.take(j as int),
            decreases items@.len() - j,
        {
            members.push(items[j]);
            assert(start + items@.take(j + 1) =~= start + items@.take(j as int) + seq![items@[j as int]]);
            j += 1;
        }
        assert(items@.take(items@.len() as int) =~= items@);
        entries.insert(i, (key, members));
        assert(set_views(entries@) =~= old_view.update(i as int, (name@, start + items@)));
    } else {
        let mut members: Vec<usize> = Vec::new();
        let mut j: usize = 0;
        while j < items.len()
            invariant
                j <= items@.len(),
                members@ == items@.take(j as int),
            decreases items@.len() - j,
        {
            members.push(items[j]);
            assert(items@.take(j + 1) =~= items@.take(j as int).push(items@[j as int]));
            j += 1;
        }
        assert(items@.take(items@.len() as int) =~= items@);
        assert(Seq::<usize>::empty() + items@ =~= items@);
        entries.insert(i, (string_from(name), members));
        assert(set_views(entries@) =~= old_view.insert(i as int, (name@, items@)));
    }
}

/// A material without properties.
fn blank_material_exec() -> (m: AbaqusMaterial)
    ensures
        material_view(m) == blank_material(),
{
    let m = AbaqusMaterial {
        young_modulus: None,
        poisson_ratio: None,
        density: None,
        plastic_points: Vec::new(),
    };
    assert(material_view(m).plastic =~= Seq::<(Seq<char>, Seq<char>)>::empty());
    m
}

/// A change to a material, with the numbers it sets.
enum MaterialEdit {
    Keep,
    Elastic(Decimal, Decimal),
    Plastic(Decimal, Decimal),
    Density(Decimal),
}

/// The change an edit makes.
spec fn edit_view(e: MaterialEdit) -> MaterialChange {
    match e {
        MaterialEdit::Keep => MaterialChange::Keep,
        MaterialEdit::Elastic(a, b) => MaterialChange::Elastic(a@, b@),
        MaterialEdit::Plastic(a, b) => MaterialChange::Plastic(a@, b@),
        MaterialEdit::Density(d) => MaterialChange::Density(d@),
    }
}

fn apply_edit(m: AbaqusMaterial, e: MaterialEdit) -> (r: AbaqusMaterial)
    ensures
        material_view(r) == change_material(material_view(m), edit_view(e)),
{
    match e {
        MaterialEdit::Keep => m,
        MaterialEdit::Elastic(a, b) => AbaqusMaterial {
            young_modulus: Some(a),
            poisson_ratio: Some(b),
            ..m
        },
        MaterialEdit::Plastic(a, b) => {
            let mut m = m;
            let ghost before = material_view(m);
            m.plastic_points.push([a, b]);
            assert(material_view(m).plastic =~= before.plastic.push((a@, b@)));
            m
        },
        MaterialEdit::Density(d) => AbaqusMaterial { density: Some(d), ..m },
    }
}

/// Applies an edit to the material named `name`, adding it first if needed.
fn upsert_material(entries: &mut Vec<(String, AbaqusMaterial)>, name: &[char], edit: MaterialEdit)
    ensures
        material_views(final(entries)@) == upsert(
            material_views(old(entries)@),
            name@,
            blank_material(),
            material_change(edit_view(edit)),
        ),
{
    let ghost old_view = material_views(entries@);
    assert(string_names(entries@) =~= names_of(old_view));
    let i = find_slot(entries, name);
    if i < entries.len() && name_is(&entries[i].0, name) {
        let (key, m) = entries.remove(i);
        let m2 = apply_edit(m, edit);
        entries.insert(i, (key, m2));
        assert(material_views(entries@) =~= old_view.update(
            i as int,
            (name@, change_material(old_view[i as int].1, edit_view(edit))),
        ));
    } else {
        let m2 = apply_edit(blank_material_exec(), edit);
        entries.insert(i, (string_from(name), m2));
        assert(material_views(entries@) =~= old_view.insert(
            i as int,
            (name@, change_material(blank_material(), edit_view(edit))),
        ));
    }
}

/// The value of parameter `key` on a keyword line.
fn parameter_exec(line: &[char], key: &str) -> (r: Option<Vec<char>>)
    ensures
        chars_opt(r) == parameter(line@, key@),
{
    let parts = split_chars(line, ',');
    let ghost ps = char_views(parts@);
    let mut i: usize = 0;
    assert(ps.skip(0) =~= ps);
    while i < parts.len()
        invariant
            i <= parts@.len(),
            ps == char_views(parts@),
            ps == split_on(line@, ','),
            parameter_in(ps, key@) == parameter_in(ps.skip(i as int), key@),
        decreases parts@.len() - i,
    {
        assert(ps.skip(i as int)[0] == parts@[i as int]@);
        assert(ps.skip(i as int).drop_first() =~= ps.skip(i + 1));
        let part = trim_chars(parts[i].as_slice());
        let head = chars_before(part.as_slice(), '=');
        proof {
            crate::numbers::lemma_before_char(part@, '=');
        }
        if head.len() < part.len() {
            let name = trim_chars(head.as_slice());
            if eq_ignore_case(name.as_slice(), key) {
                let value = crate::text::copy_range(part.as_slice(), head.len() + 1, part.len());
                assert(value@ =~= part@.skip(head@.len() + 1int));
                let tv = trim_chars(value.as_slice());
                return Some(trim_matches_chars(tv.as_slice(), '"'));
            }
        }
        i += 1;
    }
    None
}

/// Reads a range token `first:last`.
fn range_token_exec(tok: &[char]) -> (r: Option<(usize, usize)>)
    ensures
        r == range_token(tok@),
{
    let parts = split_chars(tok, ':');
    if parts.len() < 2 {
        return None;
    }
    let a = parse_usize_chars(parts[0].as_slice());
    let b = parse_usize_chars(parts[1].as_slice());
    match (a, b) {
        (Some(a), Some(b)) => {
            let a1 = if a == 0 {
                0
            } else {
                a - 1
            };
            let b1 = if b == 0 {
                0
            } else {
                b - 1
            };
            Some((a1, b1))
        },
        _ => None,
    }
}

/// Appends `first ..= last` to `v`.
fn push_range(v: &mut Vec<usize>, first: usize, last: usize)
    ensures
        final(v)@ == old(v)@ + inclusive_range(first, last),
{
    let ghost start = old(v)@;
    if first > last {
        assert(inclusive_range(first, last) =~= Seq::<usize>::empty());
        assert(start + inclusive_range(first, last) =~= start);
        return;
    }
    let mut k = first;
    let ghost all = inclusive_range(first, last);
    assert(all.take(0) =~= Seq::<usize>::empty());
    assert(start + all.take(0) =~= start);
    loop
        invariant
            first <= k <= last,
            all == inclusive_range(first, last),
            start == old(v)@,
            v@ == start + all.take(k - first),
        decreases last - k,
    {
        v.push(k);
        assert(all.take(k - first + 1) =~= all.take(k - first).push(k));
        assert(start + all.take(k - first + 1) =~= (start + all.take(k - first)).push(k));
        if k == last {
            assert(all.take(k - first + 1) =~= all);
            assert(v@ =~= start + all);
            return;
        }
        k += 1;
    }
}

/// What the tokens of a set line give.
enum SetLine {
    Items(Vec<usize>),
    Failed(FileIoError),
    ZeroIndex,
}

fn set_items_exec(line: usize, toks: &Vec<Vec<char>>) -> (r: SetLine)
    ensures
        match r {
            SetLine::Items(v) => set_items(line, char_views(toks@)) == SetItems::Items(v@),
            SetLine::Failed(e) => set_items(line, char_views(toks@)) == SetItems::Failed(e@),
            SetLine::ZeroIndex => set_items(line, char_views(toks@)) == SetItems::ZeroIndex,
        },
{
    let ghost ts = char_views(toks@);
    let mut items: Vec<usize> = Vec::new();
    let mut i: usize = 0;
    assert(ts.take(0) =~= Seq::<Seq<char>>::empty());
    while i < toks.len()
        invariant
            i <= toks@.len(),
            ts == char_views(toks@),
            set_items(line, ts.take(i as int)) == SetItems::Items(items@),
        decreases toks@.len() - i,
    {
        assert(ts.take(i + 1).drop_last() =~= ts.take(i as int));
        assert(ts.take(i + 1).last() == toks@[i as int]@);
        match range_token_exec(toks[i].as_slice()) {
            Some((a, b)) => {
                push_range(&mut items, a, b);
            },
            None => {
                match parse_usize(line, toks[i].as_slice()) {
                    Err(e) => {
                        proof {
                            lemma_set_items_stop(line, ts, i + 1);
                        }
                        return SetLine::Failed(e);
                    },
                    Ok(v) => {
                        if v == 0 {
                            proof {
                                lemma_set_items_stop(line, ts, i + 1);
                            }
                            return SetLine::ZeroIndex;
                        }
                        items.push(v - 1);
                    },
                }
            },
        }
        i += 1;
    }
    assert(ts.take(toks@.len() as int) =~= ts);
    SetLine::Items(items)
}

proof fn lemma_set_items_stop(line: usize, toks: Seq<Seq<char>>, n: int)
    requires
        0 <= n <= toks.len(),
        !(set_items(line, toks.take(n)) is Items),
    ensures
        set_items(line, toks) == set_items(line, toks.take(n)),
    decreases toks.len(),
{
    if n < toks.len() {
        assert(toks.drop_last().take(n) =~= toks.take(n));
        lemma_set_items_stop(line, toks.drop_last(), n);
    } else {
        assert(toks.take(n) =~= toks);
    }
}

/// Reads each token as a `usize`.
fn usize_fields_exec(line: usize, toks: &Vec<Vec<char>>, from: usize) -> (r: Result<
    Vec<usize>,
    FileIoError,
>)
    requires
        from <= toks@.len(),
    ensures
        match r {
            Ok(v) => usize_fields(line, char_views(toks@).skip(from as int)) == Ok::<
                Seq<usize>,
                IoFault,
            >(v@),
            Err(e) => usize_fields(line, char_views(toks@).skip(from as int)) == Err::<
                Seq<usize>,
                IoFault,
            >(e@),
        },
{
    let ghost ts = char_views(toks@).skip(from as int);
    let mut out: Vec<usize> = Vec::new();
    let mut i = from;
    assert(ts.take(0) =~= Seq::<Seq<char>>::empty());
    while i < toks.len()
        invariant
            from <= i <= toks@.len(),
            ts == char_views(toks@).skip(from as int),
            usize_fields(line, ts.take(i - from)) == Ok::<Seq<usize>, IoFault>(out@),
        decreases toks@.len() - i,
    {
        assert(ts.take(i - from + 1).drop_last() =~= ts.take(i - from));
        assert(ts.take(i - from + 1).last() == toks@[i as int]@);
        match parse_usize(line, toks[i].as_slice()) {
            Ok(v) => {
                out.push(v);
            },
            Err(e) => {
                proof {
                    lemma_usize_fields_stop(line, ts, i - from + 1);
                }
                return Err(e);
            },
        }
        i += 1;
    }
    assert(ts.take(i - from) =~= ts);
    Ok(out)
}

proof fn lemma_usize_fields_stop(line: usize, toks: Seq<Seq<char>>, n: int)
    requires
        0 <= n <= toks.len(),
        usize_fields(line, toks.take(n)) is Err,
    ensures
        usize_fields(line, toks) == usize_fields(line, toks.take(n)),
    decreases toks.len(),
{
    if n < toks.len() {
        assert(toks.drop_last().take(n) =~= toks.take(n));
        lemma_usize_fields_stop(line, toks.drop_last(), n);
    } else {
        assert(toks.take(n) =~= toks);
    }
}

/// The comma-separated values of a data line, each trimmed.
fn fields_exec(line: &[char]) -> (r: Vec<Vec<char>>)
    ensures
        char_views(r@) == fields_of(line@),
        r@.len() >= 1,
{
    let parts = split_chars(line, ',');
    let mut r: Vec<Vec<char>> = Vec::new();
    let mut i: usize = 0;
    while i < parts.len()
        invariant
            i <= parts@.len(),
            char_views(parts@) == split_on(line@, ','),
            char_views(r@) == split_on(line@, ',').take(i as int).map_values(|p: Seq<char>| trim(p)),
        decreases parts@.len() - i,
    {
        let t = trim_chars(parts[i].as_slice());
        let ghost prev = r@;
        r.push(t);
        assert(char_views(r@) =~= char_views(prev).push(t@));
        assert(split_on(line@, ',').take(i + 1).map_values(|p: Seq<char>| trim(p)) =~= split_on(
            line@,
            ',',
        ).take(i as int).map_values(|p: Seq<char>| trim(p)).push(trim(parts@[i as int]@)));
        i += 1;
    }
    assert(split_on(line@, ',').take(parts@.len() as int) =~= split_on(line@, ','));
    r
}

/// A `String` holding the characters of `s`.
fn text(s: &str) -> (r: String)
    ensures
        r@ == s@,
{
    let c = chars_of(s);
    string_from(c.as_slice())
}

/// The model read so far and the keyword context of the deck.
struct DeckReader {
    model: AbaqusModel,
    keyword: Vec<char>,
    set_name: Option<Vec<char>>,
    material: Option<Vec<char>>,
    step: Option<Vec<char>>,
    pending_kind: Vec<char>,
    pending_set: Option<Vec<char>>,
}

spec fn reader_view(r: DeckReader) -> AbaqusState {
    AbaqusState {
        nodes: node_views(r.model.nodes@),
        elements: element_views(r.model.elements@),
        node_sets: set_views(r.model.node_sets@),
        element_sets: set_views(r.model.element_sets@),
        materials: material_views(r.model.materials@),
        boundaries: boundary_views(r.model.boundaries@),
        steps: step_views(r.model.steps@),
        keyword: r.keyword@,
        set_name: chars_opt(r.set_name),
        material: chars_opt(r.material),
        step: chars_opt(r.step),
        pending_kind: r.pending_kind@,
        pending_set: chars_opt(r.pending_set),
    }
}

/// How handling one line ended.
enum LineResult {
    Read,
    Failed(FileIoError),
    ZeroIndex,
}

spec fn line_matches(r: LineResult, after: DeckReader, expected: DeckOutcome) -> bool {
    match r {
        LineResult::Read => expected == DeckOutcome::Read(reader_view(after)),
        LineResult::Failed(e) => expected == DeckOutcome::Failed(e@),
        LineResult::ZeroIndex => expected == DeckOutcome::ZeroIndex,
    }
}

fn string_opt_from(o: &Option<Vec<char>>) -> (r: Option<String>)
    ensures
        string_opt(r) == chars_opt(*o),
{
    match o {
        Some(v) => Some(string_from(v.as_slice())),
        None => None,
    }
}

/// Gives the current step, if some step has its name, the kind.
fn mark_step_exec(reader: &mut DeckReader, kind: &str)
    ensures
        reader_view(*final(reader)) == mark_step(reader_view(*old(reader)), kind@),
{
    let ghost st = reader_view(*reader);
    match &reader.step {
        None => {},
        Some(name) => {
            let name = name.clone();
            let mut i: usize = 0;
            let ghost steps = st.steps;
            assert(steps.take(0) =~= Seq::<(Seq<char>, Seq<char>)>::empty());
            while i < reader.model.steps.len()
                invariant
                    i <= reader.model.steps@.len(),
                    steps == step_views(reader.model.steps@),
                    step_named(steps.take(i as int), name@) is None,
                    st == reader_view(*reader),
                    st == reader_view(*old(reader)),
                    st.step == Some(name@),
                decreases reader.model.steps@.len() - i,
            {
                assert(steps.take(i + 1).drop_last() =~= steps.take(i as int));
                if name_is(&reader.model.steps[i].name, name.as_slice()) {
                    assert(steps.take(i + 1).last() == steps[i as int]);
                    assert(step_named(steps.take(i + 1), name@) == Some(i as int));
                    proof {
                        lemma_step_named_prefix(steps, name@, i + 1);
                    }
                    reader.model.steps.set(i, AbaqusStep { name: string_from(name.as_slice()), kind: text(kind) });
                    assert(step_views(reader.model.steps@) =~= steps.update(i as int, (name@, kind@)));
                    assert(reader_view(*reader) == AbaqusState {
                        steps: st.steps.update(i as int, (name@, kind@)),
                        ..st
                    });
                    return;
                }
                i += 1;
            }
            assert(steps.take(i as int) =~= steps);
        },
    }
}

proof fn lemma_step_named_prefix(steps: Seq<(Seq<char>, Seq<char>)>, name: Seq<char>, n: int)
    requires
        0 <= n <= steps.len(),
        step_named(steps.take(n), name) is Some,
    ensures
        step_named(steps, name) == step_named(steps.take(n), name),
    decreases steps.len(),
{
    if n < steps.len() {
        assert(steps.drop_last().take(n) =~= steps.take(n));
        lemma_step_named_prefix(steps.drop_last(), name, n);
    } else {
        assert(steps.take(n) =~= steps);
    }
}

/// Reads a keyword line (it starts with `*`).
fn keyword_line_exec(reader: &mut DeckReader, line: &[char])
    requires
        line@.len() >= 1,
    ensures
        reader_view(*final(reader)) == keyword_line(reader_view(*old(reader)), line@),
{
    let rest = crate::text::copy_range(line, 1, line.len());
    assert(rest@ =~= line@.drop_first());
    let head = chars_before(rest.as_slice(), ',');
    let trimmed = trim_chars(head.as_slice());
    let kw = upper_chars(trimmed.as_slice());
    let is_material = is_literal(kw.as_slice(), "MATERIAL");
    let is_step = is_literal(kw.as_slice(), "STEP");
    let is_static = is_literal(kw.as_slice(), "STATIC");
    let is_dynamic = is_literal(kw.as_slice(), "DYNAMIC");
    let set_name = match parameter_exec(line, "NSET") {
        Some(n) => Some(n),
        None => parameter_exec(line, "ELSET"),
    };
    let pending_kind = match parameter_exec(line, "TYPE") {
        Some(t) => t,
        None => chars_of("UNKNOWN"),
    };
    let pending_set = parameter_exec(line, "ELSET");
    reader.keyword = kw;
    reader.set_name = set_name;
    reader.pending_kind = pending_kind;
    reader.pending_set = pending_set;
    if is_material {
        let m = parameter_exec(line, "NAME");
        match &m {
            Some(n) => {
                upsert_material(&mut reader.model.materials, n.as_slice(), MaterialEdit::Keep);
            },
            None => {},
        }
        reader.material = m;
    } else if is_step {
        let st = parameter_exec(line, "NAME");
        match &st {
            Some(n) => {
                let ghost before = reader.model.steps@;
                reader.model.steps.push(AbaqusStep { name: string_from(n.as_slice()), kind: text("generic") });
                assert(step_views(reader.model.steps@) =~= step_views(before).push((n@, "generic"@)));
            },
            None => {},
        }
        reader.step = st;
    } else if is_static {
        mark_step_exec(reader, "static");
    } else if is_dynamic {
        mark_step_exec(reader, "dynamic");
    }
}

fn node_data_exec(reader: &mut DeckReader, number: usize, t: &Vec<Vec<char>>) -> (r: LineResult)
    requires
        old(reader).model.nodes@.len() < number,
    ensures
        line_matches(r, *final(reader), node_data(reader_view(*old(reader)), number, char_views(t@))),
        final(reader).model.nodes@.len() <= old(reader).model.nodes@.len() + 1,
{
    if t.len() < 4 {
        return LineResult::Failed(FileIoError::InvalidLine { line: number, expected: "node id, x, y, z" });
    }
    let id = match parse_usize(number, t[0].as_slice()) {
        Ok(v) => v,
        Err(e) => {
            return LineResult::Failed(e);
        },
    };
    let x = match parse_decimal(number, t[1].as_slice()) {
        Ok(v) => v,
        Err(e) => {
            return LineResult::Failed(e);
        },
    };
    let y = match parse_decimal(number, t[2].as_slice()) {
        Ok(v) => v,
        Err(e) => {
            return LineResult::Failed(e);
        },
    };
    let z = match parse_decimal(number, t[3].as_slice()) {
        Ok(v) => v,
        Err(e) => {
            return LineResult::Failed(e);
        },
    };
    let expected = reader.model.nodes.len() + 1;
    if id != expected {
        return LineResult::Failed(FileIoError::NonContiguousId { expected, found: id });
    }
    let ghost before = reader.model.nodes@;
    reader.model.nodes.push([x, y, z]);
    assert(node_views(reader.model.nodes@) =~= node_views(before).push((x@, y@, z@)));
    LineResult::Read
}

fn element_data_exec(reader: &mut DeckReader, number: usize, t: &Vec<Vec<char>>) -> (r: LineResult)
    requires
        t@.len() >= 1,
    ensures
        line_matches(r, *final(reader), element_data(reader_view(*old(reader)), number, char_views(t@))),
        final(reader).model.nodes@ == old(reader).model.nodes@,
{
    assert(char_views(t@).skip(1) =~= char_views(t@).drop_first());
    let nodes = match usize_fields_exec(number, t, 1) {
        Ok(v) => v,
        Err(e) => {
            return LineResult::Failed(e);
        },
    };
    let e = AbaqusElement {
        kind: string_from(reader.pending_kind.as_slice()),
        nodes,
        element_set: string_opt_from(&reader.pending_set),
    };
    let ghost before = reader.model.elements@;
    let ghost ev = ElementView { kind: e.kind@, nodes: e.nodes@, set: string_opt(e.element_set) };
    reader.model.elements.push(e);
    assert(element_views(reader.model.elements@) =~= element_views(before).push(ev));
    LineResult::Read
}

fn set_data_exec(reader: &mut DeckReader, number: usize, t: &Vec<Vec<char>>) -> (r: LineResult)
    ensures
        line_matches(r, *final(reader), set_data(reader_view(*old(reader)), number, char_views(t@))),
        final(reader).model.nodes@ == old(reader).model.nodes@,
{
    let node_set = is_literal(reader.keyword.as_slice(), "NSET");
    let name = match &reader.set_name {
        Some(n) => n.clone(),
        None => {
            if node_set {
                return LineResult::Failed(
                    FileIoError::InvalidLine { line: number, expected: "NSET name on keyword line" },
                );
            } else {
                return LineResult::Failed(
                    FileIoError::InvalidLine { line: number, expected: "ELSET name on keyword line" },
                );
            }
        },
    };
    match set_items_exec(number, t) {
        SetLine::Failed(e) => LineResult::Failed(e),
        SetLine::ZeroIndex => LineResult::ZeroIndex,
        SetLine::Items(items) => {
            if node_set {
                upsert_set(&mut reader.model.node_sets, name.as_slice(), &items);
            } else {
                upsert_set(&mut reader.model.element_sets, name.as_slice(), &items);
            }
            LineResult::Read
        },
    }
}

/// Appends the boundary entries of one line.
fn push_boundaries(
    out: &mut Vec<AbaqusBoundary>,
    node: usize,
    first: usize,
    last: usize,
    value: &Decimal,
)
    ensures
        boundary_views(final(out)@) == boundary_views(old(out)@) + boundary_entries(
            node,
            first,
            last,
            value@,
        ),
{
    let mut comps: Vec<usize> = Vec::new();
    push_range(&mut comps, first, last);
    assert(comps@ =~= inclusive_range(first, last));
    let ghost start = boundary_views(out@);
    let ghost all = boundary_entries(node, first, last, value@);
    let mut i: usize = 0;
    assert(start + all.take(0) =~= start);
    while i < comps.len()
        invariant
            i <= comps@.len(),
            comps@ == inclusive_range(first, last),
            all == boundary_entries(node, first, last, value@),
            start == boundary_views(old(out)@),
            boundary_views(out@) == start + all.take(i as int),
        decreases comps@.len() - i,
    {
        let ghost before = out@;
        out.push(AbaqusBoundary { node, component: comps[i], value: value.copy() });
        assert(boundary_views(out@) =~= boundary_views(before).push((node, comps@[i as int], value@)));
        assert(all.take(i + 1) =~= all.take(i as int).push((node, comps@[i as int], value@)));
        assert(start + all.take(i + 1) =~= (start + all.take(i as int)).push(
            (node, comps@[i as int], value@),
        ));
        i += 1;
    }
    assert(all.take(comps@.len() as int) =~= all);
}

fn boundary_data_exec(reader: &mut DeckReader, number: usize, t: &Vec<Vec<char>>) -> (r: LineResult)
    ensures
        line_matches(r, *final(reader), boundary_data(reader_view(*old(reader)), number, char_views(t@))),
        final(reader).model.nodes@ == old(reader).model.nodes@,
{
    if t.len() < 3 {
        return LineResult::Failed(
            FileIoError::InvalidLine { line: number, expected: "node, first_dof, last_dof, value" },
        );
    }
    let node = match parse_usize(number, t[0].as_slice()) {
        Ok(v) => v,
        Err(e) => {
            return LineResult::Failed(e);
        },
    };
    if node == 0 {
        return LineResult::ZeroIndex;
    }
    let first = match parse_usize(number, t[1].as_slice()) {
        Ok(v) => v,
        Err(e) => {
            return LineResult::Failed(e);
        },
    };
    let last = match parse_usize(number, t[2].as_slice()) {
        Ok(v) => v,
        Err(e) => {
            return LineResult::Failed(e);
        },
    };
    let value = if t.len() > 3 {
        match parse_decimal(number, t[3].as_slice()) {
            Ok(v) => v,
            Err(e) => {
                return LineResult::Failed(e);
            },
        }
    } else {
        Decimal::zero()
    };
    assert(boundary_value(number, char_views(t@)) == Ok::<Seq<char>, IoFault>(value@));
    push_boundaries(&mut reader.model.boundaries, node - 1, first, last, &value);
    LineResult::Read
}

fn material_data_exec(reader: &mut DeckReader, number: usize, t: &Vec<Vec<char>>) -> (r: LineResult)
    ensures
        line_matches(r, *final(reader), material_data(reader_view(*old(reader)), number, char_views(t@))),
        final(reader).model.nodes@ == old(reader).model.nodes@,
{
    let name = match &reader.material {
        Some(n) => n.clone(),
        None => {
            return LineResult::Read;
        },
    };
    if t.len() < 2 {
        return LineResult::Read;
    }
    let a = match parse_decimal(number, t[0].as_slice()) {
        Ok(v) => v,
        Err(e) => {
            return LineResult::Failed(e);
        },
    };
    let b = match parse_decimal(number, t[1].as_slice()) {
        Ok(v) => v,
        Err(e) => {
            return LineResult::Failed(e);
        },
    };
    let edit = if is_literal(reader.keyword.as_slice(), "ELASTIC") {
        MaterialEdit::Elastic(a, b)
    } else {
        MaterialEdit::Plastic(a, b)
    };
    upsert_material(&mut reader.model.materials, name.as_slice(), edit);
    LineResult::Read
}

fn density_data_exec(reader: &mut DeckReader, number: usize, t: &Vec<Vec<char>>) -> (r: LineResult)
    requires
        t@.len() >= 1,
    ensures
        line_matches(r, *final(reader), density_data(reader_view(*old(reader)), number, char_views(t@))),
        final(reader).model.nodes@ == old(reader).model.nodes@,
{
    let name = match &reader.material {
        Some(n) => n.clone(),
        None => {
            return LineResult::Read;
        },
    };
    let d = match parse_decimal(number, t[0].as_slice()) {
        Ok(v) => v,
        Err(e) => {
            return LineResult::Failed(e);
        },
    };
    upsert_material(&mut reader.model.materials, name.as_slice(), MaterialEdit::Density(d));
    LineResult::Read
}

fn data_line_exec(reader: &mut DeckReader, number: usize, line: &[char]) -> (r: LineResult)
    requires
        old(reader).model.nodes@.len() < number,
    ensures
        line_matches(r, *final(reader), data_line(reader_view(*old(reader)), number, line@)),
        final(reader).model.nodes@.len() <= old(reader).model.nodes@.len() + 1,
{
    let t = fields_exec(line);
    if is_literal(reader.keyword.as_slice(), "NODE") {
        node_data_exec(reader, number, &t)
    } else if is_literal(reader.keyword.as_slice(), "ELEMENT") {
        element_data_exec(reader, number, &t)
    } else if is_literal(reader.keyword.as_slice(), "NSET") || is_literal(
        reader.keyword.as_slice(),
        "ELSET",
    ) {
        set_data_exec(reader, number, &t)
    } else if is_literal(reader.keyword.as_slice(), "BOUNDARY") {
        boundary_data_exec(reader, number, &t)
    } else if is_literal(reader.keyword.as_slice(), "ELASTIC") || is_literal(
        reader.keyword.as_slice(),
        "PLASTIC",
    ) {
        material_data_exec(reader, number, &t)
    } else if is_literal(reader.keyword.as_slice(), "DENSITY") {
        density_data_exec(reader, number, &t)
    } else {
        LineResult::Read
    }
}

fn deck_line_exec(reader: &mut DeckReader, number: usize, raw: &[char]) -> (r: LineResult)
    requires
        old(reader).model.nodes@.len() < number,
    ensures
        line_matches(r, *final(reader), deck_line(reader_view(*old(reader)), number, raw@)),
        final(reader).model.nodes@.len() <= old(reader).model.nodes@.len() + 1,
{
    let stripped = chars_before(raw, '!');
    let line = trim_chars(stripped.as_slice());
    if line.len() == 0 {
        LineResult::Read
    } else if line.len() >= 2 && line[0] == '*' && line[1] == '*' {
        LineResult::Read
    } else if line[0] == '*' {
        keyword_line_exec(reader, line.as_slice());
        LineResult::Read
    } else {
        data_line_exec(reader, number, line.as_slice())
    }
}

/// The outcome of reading a whole deck.
enum DeckRun {
    Read(AbaqusModel),
    Failed(FileIoError),
    ZeroIndex,
}

proof fn lemma_deck_lines_stop(ls: Seq<Seq<char>>, n: int)
    requires
        0 <= n <= ls.len(),
    ensures
        !(deck_lines(ls.take(n)) is Read) ==> deck_lines(ls) == deck_lines(ls.take(n)),
    decreases ls.len(),
{
    if n < ls.len() {
        assert(ls.drop_last().take(n) =~= ls.take(n));
        lemma_deck_lines_stop(ls.drop_last(), n);
    } else {
        assert(ls.take(n) =~= ls);
    }
}

fn read_deck(input: &str) -> (r: DeckRun)
    ensures
        match r {
            DeckRun::Read(m) => deck(input@) matches DeckOutcome::Read(st) && model_matches(m, st),
            DeckRun::Failed(e) => deck(input@) == DeckOutcome::Failed(e@),
            DeckRun::ZeroIndex => deck(input@) is ZeroIndex,
        },
{
    let chars = chars_of(input);
    let lines = split_lines(chars.as_slice());
    let ghost ls = char_views(lines@);
    let mut reader = DeckReader {
        model: AbaqusModel {
            nodes: Vec::new(),
            elements: Vec::new(),
            node_sets: Vec::new(),
            element_sets: Vec::new(),
            materials: Vec::new(),
            boundaries: Vec::new(),
            steps: Vec::new(),
        },
        keyword: Vec::new(),
        set_name: None,
        material: None,
        step: None,
        pending_kind: chars_of("UNKNOWN"),
        pending_set: None,
    };
    assert(reader_view(reader) =~= deck_start()) by {
        assert(node_views(reader.model.nodes@) =~= Seq::<(Seq<char>, Seq<char>, Seq<char>)>::empty());
        assert(element_views(reader.model.elements@) =~= Seq::<ElementView>::empty());
        assert(set_views(reader.model.node_sets@) =~= Seq::<(Seq<char>, Seq<usize>)>::empty());
        assert(set_views(reader.model.element_sets@) =~= Seq::<(Seq<char>, Seq<usize>)>::empty());
        assert(material_views(reader.model.materials@) =~= Seq::<(Seq<char>, MaterialView)>::empty());
        assert(boundary_views(reader.model.boundaries@) =~= Seq::<(usize, usize, Seq<char>)>::empty());
        assert(step_views(reader.model.steps@) =~= Seq::<(Seq<char>, Seq<char>)>::empty());
        assert(reader.keyword@ =~= Seq::<char>::empty());
    }
    let mut i: usize = 0;
    assert(ls.take(0) =~= Seq::<Seq<char>>::empty());
    while i < lines.len()
        invariant
            i <= lines@.len(),
            ls == char_views(lines@),
            ls == lines_of(input@),
            deck_lines(ls.take(i as int)) == DeckOutcome::Read(reader_view(reader)),
            reader.model.nodes@.len() <= i,
        decreases lines@.len() - i,
    {
        assert(ls.take(i + 1).drop_last() =~= ls.take(i as int));
        assert(ls.take(i + 1).last() == lines@[i as int]@);
        proof {
            lemma_deck_lines_stop(ls, i + 1);
        }
        match deck_line_exec(&mut reader, i + 1, lines[i].as_slice()) {
            LineResult::Read => {},
            LineResult::Failed(e) => {
                return DeckRun::Failed(e);
            },
            LineResult::ZeroIndex => {
                return DeckRun::ZeroIndex;
            },
        }
        i += 1;
    }
    assert(ls.take(lines@.len() as int) =~= ls);
    DeckRun::Read(reader.model)
}

/// Whether a deck names node or element `0` in a set or boundary line,
/// which its one-based numbering cannot shift down; `parse_abaqus_str`
/// reads every other deck.
pub fn abaqus_index_underflow(input: &str) -> (r: bool)
    ensures
        r == (deck(input@) is ZeroIndex),
{
    match read_deck(input) {
        DeckRun::ZeroIndex => true,
        _ => false,
    }
}

/// Reads an Abaqus deck.
pub fn parse_abaqus_str(input: &str) -> (r: Result<AbaqusModel, FileIoError>)
    requires
        !(deck(input@) is ZeroIndex),
    ensures
        match r {
            Ok(m) => deck(input@) matches DeckOutcome::Read(st) && model_matches(m, st),
            Err(e) => deck(input@) == DeckOutcome::Failed(e@),
        },
        r matches Ok(m) ==> {
            &&& names_ascending(string_names(m.node_sets@))
            &&& names_ascending(string_names(m.element_sets@))
            &&& names_ascending(string_names(m.materials@))
        },
{
    match read_deck(input) {
        DeckRun::Read(m) => {
            proof {
                lemma_deck_names_in_order(lines_of(input@));
                assert(string_names(m.node_sets@) =~= names_of(set_views(m.node_sets@)));
                assert(string_names(m.element_sets@) =~= names_of(set_views(m.element_sets@)));
                assert(string_names(m.materials@) =~= names_of(material_views(m.materials@)));
            }
            Ok(m)
        },
        DeckRun::Failed(e) => Err(e),
        DeckRun::ZeroIndex => {
            proof {
                assert(false);
            }
            Err(FileIoError::MissingGmshNodes)
        },
    }
}

/// The cell kind an Abaqus element type names; unknown types are read as
/// linear triangles.
pub open spec fn abaqus_kind(kind: Seq<char>) -> ElementKind {
    let u = upper(kind);
    if u == "CPS3"@ || u == "CPE3"@ || u == "S3"@ {
        ElementKind::Tri3
    } else if u == "CPS4"@ || u == "CPE4"@ || u == "S4"@ {
        ElementKind::Quad4
    } else if u == "C3D4"@ {
        ElementKind::Tet4
    } else if u == "C3D8"@ {
        ElementKind::Hex8
    } else {
        ElementKind::Tri3
    }
}

/// The cell kind an Abaqus element type names.
pub fn map_abaqus_element_kind(kind: &str) -> (k: ElementKind)
    ensures
        k == abaqus_kind(kind@),
{
    let c = chars_of(kind);
    let u = upper_chars(c.as_slice());
    let u = u.as_slice();
    if is_literal(u, "CPS3") || is_literal(u, "CPE3") || is_literal(u, "S3") {
        ElementKind::Tri3
    } else if is_literal(u, "CPS4") || is_literal(u, "CPE4") || is_literal(u, "S4") {
        ElementKind::Quad4
    } else if is_literal(u, "C3D4") {
        ElementKind::Tet4
    } else if is_literal(u, "C3D8") {
        ElementKind::Hex8
    } else {
        ElementKind::Tri3
    }
}

/// The element type names read as cells (in upper case): plane stress
/// `CPS`, plane strain `CPE` and shell `S` elements with three or four
/// nodes, and solid `C3D` elements with four or eight.
pub open spec fn known_abaqus_name(u: Seq<char>) -> bool {
    ||| u == "CPS3"@
    ||| u == "CPE3"@
    ||| u == "S3"@
    ||| u == "CPS4"@
    ||| u == "CPE4"@
    ||| u == "S4"@
    ||| u == "C3D4"@
    ||| u == "C3D8"@
}

/// An Abaqus element type name says the cell it is, in any letter case: its
/// final digit is the number of nodes, a `C3D` name is a solid (a volume
/// cell) and the others are surface cells, all of first order. Any other
/// name is read as a linear triangle.
pub proof fn law_abaqus_names_give_shape(s: Seq<char>)
    ensures
        known_abaqus_name(upper(s)) ==> (abaqus_kind(s).nodes_per_cell() == (upper(s).last() as int)
            - ('0' as int) && !abaqus_kind(s).is_quadratic() && ((abaqus_kind(s).dimension_of()
            == EntityDimension::Volume) == (upper(s).len() >= 3 && upper(s).take(3) == "C3D"@))
            && (abaqus_kind(s).dimension_of() == EntityDimension::Volume
            || abaqus_kind(s).dimension_of() == EntityDimension::Surface)),
        !known_abaqus_name(upper(s)) ==> abaqus_kind(s) == ElementKind::Tri3,
{
    reveal_strlit("CPS3");
    reveal_strlit("CPE3");
    reveal_strlit("S3");
    reveal_strlit("CPS4");
    reveal_strlit("CPE4");
    reveal_strlit("S4");
    reveal_strlit("C3D4");
    reveal_strlit("C3D8");
    reveal_strlit("C3D");
    let u = upper(s);
    if u == "C3D4"@ || u == "C3D8"@ {
        assert(u.take(3) =~= "C3D"@);
        assert(u.last() == u[3]);
    } else if u == "CPS3"@ || u == "CPE3"@ || u == "CPS4"@ || u == "CPE4"@ {
        assert(u.take(3)[1] != "C3D"@[1]);
        assert(u.last() == u[3]);
    } else if u == "S3"@ || u == "S4"@ {
        assert(u.last() == u[1]);
    }
    if known_abaqus_name(u) {
        assert(('3' as int) - ('0' as int) == 3);
        assert(('4' as int) - ('0' as int) == 4);
        assert(('8' as int) - ('0' as int) == 8);
    }
}

/// The cell an element becomes: its kind, its nodes counted from zero.
pub open spec fn abaqus_cell(e: ElementView) -> CellView {
    CellView {
        kind: abaqus_kind(e.kind),
        nodes: e.nodes.map_values(|n: usize| (n - 1) as usize),
        region: None,
    }
}

/// The cells a model's elements become.
pub open spec fn abaqus_cells(m: AbaqusModel) -> Seq<CellView> {
    element_views(m.elements@).map_values(|e: ElementView| abaqus_cell(e))
}

/// The points of a model's nodes, by the texts of their first two coordinates.
pub open spec fn abaqus_points(m: AbaqusModel) -> Seq<(Seq<char>, Seq<char>)> {
    node_views(m.nodes@).map_values(|n: (Seq<char>, Seq<char>, Seq<char>)| (n.0, n.1))
}

/// Every element refers to its nodes by numbers from one.
pub open spec fn numbered_from_one(m: AbaqusModel) -> bool {
    forall|i: int, j: int|
        0 <= i < m.elements@.len() && 0 <= j < m.elements@[i].nodes@.len() ==> #[trigger] m.elements@[i].nodes@[j]
            >= 1
}

/// The two-dimensional mesh of a model: its nodes' first two coordinates and
/// its elements as cells, if they form one.
pub fn abaqus_to_mesh_2d(model: &AbaqusModel) -> (r: Result<Mesh, FileIoError>)
    requires
        numbered_from_one(*model),
    ensures
        match r {
            Ok(m) => cell_views_error(abaqus_cells(*model), model.nodes@.len(), seq![]) is None
                && crate::io::mesh::point_views(m.spec_points()) == abaqus_points(*model)
                && cell_views(m.spec_cells()) == abaqus_cells(*model),
            Err(e) => cell_views_error(abaqus_cells(*model), model.nodes@.len(), seq![]) matches Some(
                x,
            ) && e@ == IoFault::Mesh(x),
        },
{
    let mut points: Vec<Point2> = Vec::new();
    let mut i: usize = 0;
    while i < model.nodes.len()
        invariant
            i <= model.nodes@.len(),
            crate::io::mesh::point_views(points@) == abaqus_points(*model).take(i as int),
        decreases model.nodes@.len() - i,
    {
        let n = &model.nodes[i];
        let p = Point2::new(n[0].copy(), n[1].copy());
        let ghost prev = points@;
        points.push(p);
        assert(crate::io::mesh::point_views(points@) =~= crate::io::mesh::point_views(prev).push(
            (p.x@, p.y@),
        ));
        assert(abaqus_points(*model).take(i + 1) =~= abaqus_points(*model).take(i as int).push(
            (p.x@, p.y@),
        ));
        i += 1;
    }
    assert(abaqus_points(*model).take(model.nodes@.len() as int) =~= abaqus_points(*model));
    let mut cells: Vec<Cell> = Vec::new();
    let mut k: usize = 0;
    while k < model.elements.len()
        invariant
            k <= model.elements@.len(),
            numbered_from_one(*model),
            cell_views(cells@) == abaqus_cells(*model).take(k as int),
        decreases model.elements@.len() - k,
    {
        let e = &model.elements[k];
        let kind = map_abaqus_element_kind(e.kind.as_str());
        let mut nodes: Vec<usize> = Vec::new();
        let mut j: usize = 0;
        while j < e.nodes.len()
            invariant
                j <= e.nodes@.len(),
                e == model.elements@[k as int],
                k < model.elements@.len(),
                numbered_from_one(*model),
                nodes@ == e.nodes@.take(j as int).map_values(|n: usize| (n - 1) as usize),
            decreases e.nodes@.len() - j,
        {
            assert(model.elements@[k as int].nodes@[j as int] >= 1);
            nodes.push(e.nodes[j] - 1);
            assert(e.nodes@.take(j + 1).map_values(|n: usize| (n - 1) as usize) =~= e.nodes@.take(
                j as int,
            ).map_values(|n: usize| (n - 1) as usize).push((e.nodes@[j as int] - 1) as usize));
            j += 1;
        }
        assert(e.nodes@.take(e.nodes@.len() as int) =~= e.nodes@);
        let c = Cell::new(kind, nodes);
        let ghost prev = cells@;
        cells.push(c);
        assert(cell_views(cells@) =~= cell_views(prev).push(c@));
        assert(abaqus_cells(*model).take(k + 1) =~= abaqus_cells(*model).take(k as int).push(c@));
        k += 1;
    }
    assert(abaqus_cells(*model).take(model.elements@.len() as int) =~= abaqus_cells(*model));
    proof {
        crate::mesh::lemma_cell_views_error(cells@, points@.len(), seq![]);
        assert(region_ids(Seq::<crate::mesh::Region>::empty()) =~= Seq::<usize>::empty());
    }
    match Mesh::new_with_cells(points, cells) {
        Ok(m) => Ok(m),
        Err(e) => Err(FileIoError::Mesh(e)),
    }
}

/// Annotations naming each material of a model, in the order of their
/// names, numbered from zero, all assigned to region `0`, without properties.
pub fn abaqus_to_annotations(model: &AbaqusModel) -> (a: GeometryAnnotations)
    ensures
        a.spec_parameters().len() == 0,
        a.spec_materials().len() == model.materials@.len(),
        forall|i: int|
            0 <= i < model.materials@.len() ==> {
                &&& (#[trigger] a.spec_materials()[i]).id == i
                &&& a.spec_materials()[i].name@ == model.materials@[i].0@
                &&& a.spec_materials()[i].target == EntitySelector::RegionId(0)
                &&& a.spec_materials()[i].properties@.len() == 0
            },
{
    let mut annotations = GeometryAnnotations::new();
    let mut i: usize = 0;
    while i < model.materials.len()
        invariant
            i <= model.materials@.len(),
            annotations.spec_parameters().len() == 0,
            annotations.spec_materials().len() == i,
            forall|j: int|
                0 <= j < i ==> {
                    &&& (#[trigger] annotations.spec_materials()[j]).id == j
                    &&& annotations.spec_materials()[j].name@ == model.materials@[j].0@
                    &&& annotations.spec_materials()[j].target == EntitySelector::RegionId(0)
                    &&& annotations.spec_materials()[j].properties@.len() == 0
                },
        decreases model.materials@.len() - i,
    {
        let props: Vec<crate::annotation::Parameter> = Vec::new();
        let m = MaterialAssignment::new(
            i,
            model.materials[i].0.as_str(),
            EntitySelector::region_id(0),
            props,
        );
        annotations = annotations.with_material(m);
        i += 1;
    }
    annotations
}

/// The position of the entry named `name`, if there is one.
fn find_named<V>(entries: &Vec<(String, V)>, name: &str) -> (r: Option<usize>)
    ensures
        match r {
            Some(i) => i < entries@.len() && entries@[i as int].0@ == name@,
            None => forall|i: int| 0 <= i < entries@.len() ==> (#[trigger] entries@[i]).0@ != name@,
        },
{
    let target = chars_of(name);
    let mut i: usize = 0;
    while i < entries.len()
        invariant
            i <= entries@.len(),
            target@ == name@,
            forall|j: int| 0 <= j < i ==> (#[trigger] entries@[j]).0@ != name@,
        decreases entries@.len() - i,
    {
        if name_is(&entries[i].0, target.as_slice()) {
            return Some(i);
        }
        i += 1;
    }
    None
}

impl AbaqusModel {
    /// The members of the node set named `name`, counted from zero.
    pub fn node_set(&self, name: &str) -> (r: Option<&Vec<usize>>)
        ensures
            match r {
                Some(v) => exists|i: int|
                    0 <= i < self.node_sets@.len() && #[trigger] self.node_sets@[i].0@ == name@
                        && self.node_sets@[i].1 == *v,
                None => forall|i: int|
                    0 <= i < self.node_sets@.len() ==> (#[trigger] self.node_sets@[i]).0@ != name@,
            },
    {
        match find_named(&self.node_sets, name) {
            Some(i) => Some(&self.node_sets[i].1),
            None => None,
        }
    }

    /// The members of the element set named `name`, counted from zero.
    pub fn element_set(&self, name: &str) -> (r: Option<&Vec<usize>>)
        ensures
            match r {
                Some(v) => exists|i: int|
                    0 <= i < self.element_sets@.len() && #[trigger] self.element_sets@[i].0@ == name@
                        && self.element_sets@[i].1 == *v,
                None => forall|i: int|
                    0 <= i < self.element_sets@.len() ==> (#[trigger] self.element_sets@[i]).0@ != name@,
            },
    {
        match find_named(&self.element_sets, name) {
            Some(i) => Some(&self.element_sets[i].1),
            None => None,
        }
    }

    /// The material named `name`.
    pub fn material(&self, name: &str) -> (r: Option<&AbaqusMaterial>)
        ensures
            match r {
                Some(v) => exists|i: int|
                    0 <= i < self.materials@.len() && #[trigger] self.materials@[i].0@ == name@
                        && self.materials@[i].1 == *v,
                None => forall|i: int|
                    0 <= i < self.materials@.len() ==> (#[trigger] self.materials@[i]).0@ != name@,
            },
    {
        match find_named(&self.materials, name) {
            Some(i) => Some(&self.materials[i].1),
            None => None,
        }
    }
}

} // verus!
