//! Gmsh meshes in the ASCII 2.x format: `$MeshFormat`, `$PhysicalNames`,
//! `$Nodes` and `$Elements` sections, with their `$End...` markers.
use std::collections::BTreeMap;
use vstd::prelude::*;

use crate::io::ids::{ascending, ascending_ids, sorted_keys};
use crate::io::{decimal_field, parse_decimal, parse_usize, usize_field, FileIoError, IoFault};
use crate::mesh::{
    cell_views, cell_views_error, region_ids, region_ids_error, Cell, CellView, ElementKind,
    EntityDimension, MeshTopology, PointD, Region,
};
use crate::numbers::{decimal_text, usize_text, Decimal};
use crate::text::{
    char_views, chars_of, is_literal, lines_of, split_lines, split_words, starts_with, string_from,
    trim, trim_chars, words,
};

verus! {

broadcast use {vstd::std_specs::btree::group_btree_axioms, vstd::laws_cmp::group_laws_cmp};

/// A physical group's dimension and name, as `$PhysicalNames` gives them.
pub type PhysicalView = (EntityDimension, Seq<char>);

/// A node's three coordinates, as texts.
pub type CoordsView = (Seq<char>, Seq<char>, Seq<char>);

/// An element row: its kind, its first tag (the physical group) and the
/// Gmsh ids of its nodes.
pub struct ElementRow {
    pub kind: ElementKind,
    pub tag: Option<usize>,
    pub nodes: Seq<usize>,
    pub line: usize,
}

/// The index just past the line `marker` (trimmed), searching from
/// `index`; the number of lines if there is none.
pub open spec fn skip_to_end(lines: Seq<Seq<char>>, index: int, marker: Seq<char>) -> int
    decreases lines.len() - index,
{
    if index >= lines.len() {
        index
    } else if trim(lines[index]) == marker {
        index + 1
    } else {
        skip_to_end(lines, index + 1, marker)
    }
}

/// The count on line `index` (numbered from zero).
pub open spec fn count_row(lines: Seq<Seq<char>>, index: int, expected: Seq<char>) -> Result<
    usize,
    IoFault,
> {
    if index >= lines.len() {
        Err(IoFault::InvalidLine { line: (index + 1) as usize, expected })
    } else {
        usize_field((index + 1) as usize, trim(lines[index]))
    }
}

/// The `$MeshFormat` section from its row at `index`: version `2.x`, ASCII
/// file type `0`; the index after the section.
pub open spec fn mesh_format(lines: Seq<Seq<char>>, index: int) -> Result<int, IoFault> {
    if index >= lines.len() {
        Err(IoFault::InvalidLine { line: (index + 1) as usize, expected: "Gmsh mesh format row"@ })
    } else {
        let t = words(lines[index]);
        if t.len() < 2 {
            Err(
                IoFault::InvalidLine {
                    line: (index + 1) as usize,
                    expected: "<version> <file_type> <data_size>"@,
                },
            )
        } else if !(t[0].len() >= 2 && t[0].take(2) == "2."@) || t[1] != "0"@ {
            Err(IoFault::UnsupportedGmshFormat { version: t[0] })
        } else {
            Ok(skip_to_end(lines, index + 1, "$EndMeshFormat"@))
        }
    }
}

/// The entity dimension a physical group's dimension number names.
pub open spec fn gmsh_dimension(d: usize, line: usize) -> Result<EntityDimension, IoFault> {
    if d == 0 {
        Ok(EntityDimension::Point)
    } else if d == 1 {
        Ok(EntityDimension::Curve)
    } else if d == 2 {
        Ok(EntityDimension::Surface)
    } else if d == 3 {
        Ok(EntityDimension::Volume)
    } else {
        Err(IoFault::InvalidLine { line, expected: "physical dimension 0, 1, 2, or 3"@ })
    }
}

/// The position of the first `c` in `s`.
pub open spec fn first_index(s: Seq<char>, c: char) -> Option<int>
    decreases s.len(),
{
    if s.len() == 0 {
        None
    } else if let Some(i) = first_index(s.drop_last(), c) {
        Some(i)
    } else if s.last() == c {
        Some(s.len() - 1)
    } else {
        None
    }
}

/// The position of the last `c` in `s`.
pub open spec fn last_index(s: Seq<char>, c: char) -> Option<int>
    decreases s.len(),
{
    if s.len() == 0 {
        None
    } else if s.last() == c {
        Some(s.len() - 1)
    } else {
        last_index(s.drop_last(), c)
    }
}

/// The text between the first and the last double quote of a row.
pub open spec fn quoted_name(raw: Seq<char>, line: usize) -> Result<Seq<char>, IoFault> {
    match (first_index(raw, '"'), last_index(raw, '"')) {
        (Some(a), Some(b)) => if a == b {
            Err(IoFault::InvalidLine { line, expected: "quoted physical name"@ })
        } else {
            Ok(raw.subrange(a + 1, b))
        },
        _ => Err(IoFault::InvalidLine { line, expected: "quoted physical name"@ }),
    }
}

/// A `$PhysicalNames` row: `<dimension> <tag> "<name>"`.
pub open spec fn physical_row(lines: Seq<Seq<char>>, li: int) -> Result<
    ((usize, usize), PhysicalView),
    IoFault,
> {
    let line = (li + 1) as usize;
    if li >= lines.len() {
        Err(IoFault::InvalidLine { line, expected: "physical name row"@ })
    } else {
        let t = words(lines[li]);
        if t.len() < 3 {
            Err(IoFault::InvalidLine { line, expected: "<dimension> <tag> <name>"@ })
        } else {
            match usize_field(line, t[0]) {
                Err(e) => Err(e),
                Ok(d) => match usize_field(line, t[1]) {
                    Err(e) => Err(e),
                    Ok(tag) => match gmsh_dimension(d, line) {
                        Err(e) => Err(e),
                        Ok(dim) => match quoted_name(lines[li], line) {
                            Err(e) => Err(e),
                            Ok(name) => Ok(((d, tag), (dim, name))),
                        },
                    },
                },
            }
        }
    }
}

/// The first `k` rows after the count at `index`, later rows replacing
/// earlier ones with the same dimension and tag.
pub open spec fn physical_rows(lines: Seq<Seq<char>>, index: int, k: nat) -> Result<
    Map<(usize, usize), PhysicalView>,
    IoFault,
>
    decreases k,
{
    if k == 0 {
        Ok(Map::empty())
    } else {
        match physical_rows(lines, index, (k - 1) as nat) {
            Err(e) => Err(e),
            Ok(m) => match physical_row(lines, index + k) {
                Err(e) => Err(e),
                Ok((key, v)) => Ok(m.insert(key, v)),
            },
        }
    }
}

/// The `$PhysicalNames` section from its count at `index`; the index after it.
pub open spec fn physical_section(lines: Seq<Seq<char>>, index: int) -> Result<
    (int, Map<(usize, usize), PhysicalView>),
    IoFault,
> {
    match count_row(lines, index, "physical name count"@) {
        Err(e) => Err(e),
        Ok(count) => match physical_rows(lines, index, count as nat) {
            Err(e) => Err(e),
            Ok(m) => Ok((skip_to_end(lines, index + 1 + count, "$EndPhysicalNames"@), m)),
        },
    }
}

/// A `$Nodes` row: `<node_id> <x> <y> <z>`.
pub open spec fn node_row(lines: Seq<Seq<char>>, li: int) -> Result<(usize, CoordsView), IoFault> {
    let line = (li + 1) as usize;
    if li >= lines.len() {
        Err(IoFault::InvalidLine { line, expected: "node row"@ })
    } else {
        let t = words(lines[li]);
        if t.len() != 4 {
            Err(IoFault::InvalidLine { line, expected: "<node_id> <x> <y> <z>"@ })
        } else {
            match usize_field(line, t[0]) {
                Err(e) => Err(e),
                Ok(id) => match decimal_field(line, t[1]) {
                    Err(e) => Err(e),
                    Ok(x) => match decimal_field(line, t[2]) {
                        Err(e) => Err(e),
                        Ok(y) => match decimal_field(line, t[3]) {
                            Err(e) => Err(e),
                            Ok(z) => Ok((id, (x, y, z))),
                        },
                    },
                },
            }
        }
    }
}

/// The first `k` node rows after the count at `index`; an id may occur once.
pub open spec fn node_rows(lines: Seq<Seq<char>>, index: int, k: nat) -> Result<
    Map<usize, CoordsView>,
    IoFault,
>
    decreases k,
{
    if k == 0 {
        Ok(Map::empty())
    } else {
        match node_rows(lines, index, (k - 1) as nat) {
            Err(e) => Err(e),
            Ok(m) => match node_row(lines, index + k) {
                Err(e) => Err(e),
                Ok((id, p)) => if m.contains_key(id) {
                    Err(IoFault::DuplicateId { line: (index + k + 1) as usize, id })
                } else {
                    Ok(m.insert(id, p))
                },
            },
        }
    }
}

/// The `$Nodes` section from its count at `index`; the index after it.
pub open spec fn node_section(lines: Seq<Seq<char>>, index: int) -> Result<
    (int, Map<usize, CoordsView>),
    IoFault,
> {
    match count_row(lines, index, "node count"@) {
        Err(e) => Err(e),
        Ok(count) => match node_rows(lines, index, count as nat) {
            Err(e) => Err(e),
            Ok(m) => Ok((skip_to_end(lines, index + 1 + count, "$EndNodes"@), m)),
        },
    }
}

/// The cell kind a Gmsh element type number names, for the types read here.
pub open spec fn gmsh_kind(t: usize) -> Option<ElementKind> {
    if t == 1 {
        Some(ElementKind::Line2)
    } else if t == 2 {
        Some(ElementKind::Tri3)
    } else if t == 3 {
        Some(ElementKind::Quad4)
    } else if t == 4 {
        Some(ElementKind::Tet4)
    } else if t == 5 {
        Some(ElementKind::Hex8)
    } else {
        None
    }
}

/// Reads each token as a `usize`, stopping at the first that is not one.
pub open spec fn usize_tokens(line: usize, toks: Seq<Seq<char>>) -> Result<Seq<usize>, IoFault>
    decreases toks.len(),
{
    if toks.len() == 0 {
        Ok(seq![])
    } else {
        match usize_tokens(line, toks.drop_last()) {
            Err(e) => Err(e),
            Ok(vs) => match usize_field(line, toks.last()) {
                Err(e) => Err(e),
                Ok(v) => Ok(vs.push(v)),
            },
        }
    }
}

/// An `$Elements` row: `<id> <type> <tag_count> <tags...> <nodes...>`, with
/// exactly the nodes of its type.
pub open spec fn element_row(lines: Seq<Seq<char>>, li: int) -> Result<ElementRow, IoFault> {
    let line = (li + 1) as usize;
    if li >= lines.len() {
        Err(IoFault::InvalidLine { line, expected: "element row"@ })
    } else {
        let t = words(lines[li]);
        if t.len() < 4 {
            Err(
                IoFault::InvalidLine {
                    line,
                    expected: "<id> <type> <tag_count> <tags...> <nodes...>"@,
                },
            )
        } else {
            match usize_field(line, t[1]) {
                Err(e) => Err(e),
                Ok(et) => match gmsh_kind(et) {
                    None => Err(IoFault::UnsupportedGmshElement { line, element_type: et }),
                    Some(kind) => match usize_field(line, t[2]) {
                        Err(e) => Err(e),
                        Ok(tc) => if t.len() != 3 + tc + kind.nodes_per_cell() {
                            Err(
                                IoFault::InvalidLine {
                                    line,
                                    expected: "a supported Gmsh element with the expected number of nodes"@,
                                },
                            )
                        } else {
                            let tag = if tc > 0 {
                                match usize_field(line, t[3]) {
                                    Err(e) => Err(e),
                                    Ok(v) => Ok(Some(v)),
                                }
                            } else {
                                Ok(None)
                            };
                            match tag {
                                Err(e) => Err(e),
                                Ok(tag) => match usize_tokens(line, t.skip(3 + tc)) {
                                    Err(e) => Err(e),
                                    Ok(nodes) => Ok(ElementRow { kind, tag, nodes, line }),
                                },
                            }
                        },
                    },
                },
            }
        }
    }
}

/// The first `k` element rows after the count at `index`.
pub open spec fn element_rows(lines: Seq<Seq<char>>, index: int, k: nat) -> Result<
    Seq<ElementRow>,
    IoFault,
>
    decreases k,
{
    if k == 0 {
        Ok(seq![])
    } else {
        match element_rows(lines, index, (k - 1) as nat) {
            Err(e) => Err(e),
            Ok(es) => match element_row(lines, index + k) {
                Err(e) => Err(e),
                Ok(r) => Ok(es.push(r)),
            },
        }
    }
}

/// The `$Elements` section from its count at `index`; the index after it.
pub open spec fn element_section(lines: Seq<Seq<char>>, index: int) -> Result<
    (int, Seq<ElementRow>),
    IoFault,
> {
    match count_row(lines, index, "element count"@) {
        Err(e) => Err(e),
        Ok(count) => match element_rows(lines, index, count as nat) {
            Err(e) => Err(e),
            Ok(es) => Ok((skip_to_end(lines, index + 1 + count, "$EndElements"@), es)),
        },
    }
}

/// What the sections read so far hold; a later section of a kind replaces
/// an earlier one.
pub struct GmshSections {
    pub names: Map<(usize, usize), PhysicalView>,
    pub nodes: Map<usize, CoordsView>,
    pub elements: Seq<ElementRow>,
    pub saw_nodes: bool,
    pub saw_elements: bool,
}

/// The search for the marker stays within the lines and past `index`.
pub proof fn lemma_skip_to_end(lines: Seq<Seq<char>>, index: int, marker: Seq<char>)
    requires
        0 <= index <= lines.len(),
    ensures
        index <= skip_to_end(lines, index, marker) <= lines.len(),
    decreases lines.len() - index,
{
    if index < lines.len() && trim(lines[index]) != marker {
        lemma_skip_to_end(lines, index + 1, marker);
    }
}

proof fn lemma_rows_present_physical(lines: Seq<Seq<char>>, index: int, k: nat)
    requires
        physical_rows(lines, index, k) is Ok,
    ensures
        k > 0 ==> index + k < lines.len(),
    decreases k,
{
    if k > 0 {
        lemma_rows_present_physical(lines, index, (k - 1) as nat);
    }
}

proof fn lemma_rows_present_nodes(lines: Seq<Seq<char>>, index: int, k: nat)
    requires
        node_rows(lines, index, k) is Ok,
    ensures
        k > 0 ==> index + k < lines.len(),
    decreases k,
{
    if k > 0 {
        lemma_rows_present_nodes(lines, index, (k - 1) as nat);
    }
}

proof fn lemma_rows_present_elements(lines: Seq<Seq<char>>, index: int, k: nat)
    requires
        element_rows(lines, index, k) is Ok,
    ensures
        k > 0 ==> index + k < lines.len(),
    decreases k,
{
    if k > 0 {
        lemma_rows_present_elements(lines, index, (k - 1) as nat);
    }
}

/// Each section ends past its header and within the lines.
pub proof fn lemma_sections_advance(lines: Seq<Seq<char>>, index: int)
    requires
        0 <= index < lines.len(),
    ensures
        mesh_format(lines, index + 1) matches Ok(n) ==> index < n <= lines.len(),
        physical_section(lines, index + 1) matches Ok((n, _)) ==> index < n <= lines.len(),
        node_section(lines, index + 1) matches Ok((n, _)) ==> index < n <= lines.len(),
        element_section(lines, index + 1) matches Ok((n, _)) ==> index < n <= lines.len(),
{
    if index + 1 < lines.len() {
        lemma_skip_to_end(lines, index + 2, "$EndMeshFormat"@);
    }
    if let Ok(count) = count_row(lines, index + 1, "physical name count"@) {
        if physical_rows(lines, index + 1, count as nat) is Ok {
            lemma_rows_present_physical(lines, index + 1, count as nat);
            lemma_skip_to_end(lines, index + 2 + count, "$EndPhysicalNames"@);
        }
    }
    if let Ok(count) = count_row(lines, index + 1, "node count"@) {
        if node_rows(lines, index + 1, count as nat) is Ok {
            lemma_rows_present_nodes(lines, index + 1, count as nat);
            lemma_skip_to_end(lines, index + 2 + count, "$EndNodes"@);
        }
    }
    if let Ok(count) = count_row(lines, index + 1, "element count"@) {
        if element_rows(lines, index + 1, count as nat) is Ok {
            lemma_rows_present_elements(lines, index + 1, count as nat);
            lemma_skip_to_end(lines, index + 2 + count, "$EndElements"@);
        }
    }
}

/// Reads the sections from line `index` on; lines outside the four
/// sections are passed over.
pub open spec fn gmsh_scan(lines: Seq<Seq<char>>, index: int, st: GmshSections) -> Result<
    GmshSections,
    IoFault,
>
    decreases lines.len() - index,
{
    if index < 0 || index >= lines.len() {
        Ok(st)
    } else {
        proof {
            lemma_sections_advance(lines, index);
        }
        let l = trim(lines[index]);
        if l == "$MeshFormat"@ {
            match mesh_format(lines, index + 1) {
                Err(e) => Err(e),
                Ok(next) => gmsh_scan(lines, next, st),
            }
        } else if l == "$PhysicalNames"@ {
            match physical_section(lines, index + 1) {
                Err(e) => Err(e),
                Ok((next, names)) => gmsh_scan(lines, next, GmshSections { names, ..st }),
            }
        } else if l == "$Nodes"@ {
            match node_section(lines, index + 1) {
                Err(e) => Err(e),
                Ok((next, nodes)) => gmsh_scan(
                    lines,
                    next,
                    GmshSections { nodes, saw_nodes: true, ..st },
                ),
            }
        } else if l == "$Elements"@ {
            match element_section(lines, index + 1) {
                Err(e) => Err(e),
                Ok((next, elements)) => gmsh_scan(
                    lines,
                    next,
                    GmshSections { elements, saw_elements: true, ..st },
                ),
            }
        } else {
            gmsh_scan(lines, index + 1, st)
        }
    }
}

/// The sections of a Gmsh file; nodes and elements must be there.
pub open spec fn gmsh_sections(s: Seq<char>) -> Result<GmshSections, IoFault> {
    let start = GmshSections {
        names: Map::empty(),
        nodes: Map::empty(),
        elements: seq![],
        saw_nodes: false,
        saw_elements: false,
    };
    match gmsh_scan(lines_of(s), 0, start) {
        Err(e) => Err(e),
        Ok(st) => if !st.saw_nodes {
            Err(IoFault::MissingGmshNodes)
        } else if !st.saw_elements {
            Err(IoFault::MissingGmshElements)
        } else {
            Ok(st)
        },
    }
}

/// An element row as read: its kind, its physical tag and its Gmsh node ids.
#[derive(Debug, PartialEq)]
pub struct ElementRecord {
    pub kind: ElementKind,
    pub physical_tag: Option<usize>,
    pub nodes: Vec<usize>,
    pub line: usize,
}

/// The views of element records.
pub open spec fn record_views(v: Seq<ElementRecord>) -> Seq<ElementRow> {
    v.map_values(|e: ElementRecord| ElementRow { kind: e.kind, tag: e.physical_tag, nodes: e.nodes@, line: e.line })
}

/// Physical names by their texts.
pub open spec fn name_views(m: Map<(usize, usize), (EntityDimension, String)>) -> Map<
    (usize, usize),
    PhysicalView,
> {
    m.map_values(|v: (EntityDimension, String)| (v.0, v.1@))
}

/// Node coordinates by their texts.
pub open spec fn coords_views(m: Map<usize, [Decimal; 3]>) -> Map<usize, CoordsView> {
    m.map_values(|c: [Decimal; 3]| (c@[0]@, c@[1]@, c@[2]@))
}

fn skip_to_end_exec(lines: &Vec<Vec<char>>, index: usize, marker: &str) -> (r: usize)
    requires
        index <= lines@.len(),
    ensures
        r == skip_to_end(char_views(lines@), index as int, marker@),
{
    let ghost ls = char_views(lines@);
    let mut i = index;
    while i < lines.len()
        invariant
            index <= i <= lines@.len(),
            ls == char_views(lines@),
            skip_to_end(ls, index as int, marker@) == skip_to_end(ls, i as int, marker@),
        decreases lines@.len() - i,
    {
        let l = trim_chars(lines[i].as_slice());
        if is_literal(l.as_slice(), marker) {
            return i + 1;
        }
        i += 1;
    }
    i
}

fn count_row_exec(lines: &Vec<Vec<char>>, index: usize, expected: &'static str) -> (r: Result<
    usize,
    FileIoError,
>)
    requires
        index <= lines@.len(),
        lines@.len() < usize::MAX,
    ensures
        match r {
            Ok(n) => count_row(char_views(lines@), index as int, expected@) == Ok::<usize, IoFault>(n),
            Err(e) => count_row(char_views(lines@), index as int, expected@) == Err::<usize, IoFault>(e@),
        },
{
    if index >= lines.len() {
        return Err(FileIoError::InvalidLine { line: index + 1, expected });
    }
    let l = trim_chars(lines[index].as_slice());
    parse_usize(index + 1, l.as_slice())
}

fn mesh_format_exec(lines: &Vec<Vec<char>>, index: usize) -> (r: Result<usize, FileIoError>)
    requires
        index <= lines@.len(),
        lines@.len() < usize::MAX,
    ensures
        match r {
            Ok(n) => mesh_format(char_views(lines@), index as int) == Ok::<int, IoFault>(n as int),
            Err(e) => mesh_format(char_views(lines@), index as int) == Err::<int, IoFault>(e@),
        },
{
    if index >= lines.len() {
        return Err(FileIoError::InvalidLine { line: index + 1, expected: "Gmsh mesh format row" });
    }
    let t = split_words(lines[index].as_slice());
    if t.len() < 2 {
        return Err(
            FileIoError::InvalidLine { line: index + 1, expected: "<version> <file_type> <data_size>" },
        );
    }
    let v_ok = starts_with(t[0].as_slice(), "2.");
    proof {
        reveal_strlit("2.");
    }
    if !v_ok || !is_literal(t[1].as_slice(), "0") {
        return Err(FileIoError::UnsupportedGmshFormat { version: string_from(t[0].as_slice()) });
    }
    Ok(skip_to_end_exec(lines, index + 1, "$EndMeshFormat"))
}

fn gmsh_dimension_exec(d: usize, line: usize) -> (r: Result<EntityDimension, FileIoError>)
    ensures
        match r {
            Ok(v) => gmsh_dimension(d, line) == Ok::<EntityDimension, IoFault>(v),
            Err(e) => gmsh_dimension(d, line) == Err::<EntityDimension, IoFault>(e@),
        },
{
    if d == 0 {
        Ok(EntityDimension::Point)
    } else if d == 1 {
        Ok(EntityDimension::Curve)
    } else if d == 2 {
        Ok(EntityDimension::Surface)
    } else if d == 3 {
        Ok(EntityDimension::Volume)
    } else {
        Err(FileIoError::InvalidLine { line, expected: "physical dimension 0, 1, 2, or 3" })
    }
}

/// The Gmsh element type numbers read here, as cell kinds.
pub fn element_kind_from_gmsh(t: usize) -> (k: Option<ElementKind>)
    ensures
        k == gmsh_kind(t),
{
    if t == 1 {
        Some(ElementKind::Line2)
    } else if t == 2 {
        Some(ElementKind::Tri3)
    } else if t == 3 {
        Some(ElementKind::Quad4)
    } else if t == 4 {
        Some(ElementKind::Tet4)
    } else if t == 5 {
        Some(ElementKind::Hex8)
    } else {
        None
    }
}

proof fn lemma_first_index(s: Seq<char>, c: char, i: int)
    requires
        0 <= i <= s.len(),
        forall|j: int| 0 <= j < i ==> s[j] != c,
        i == s.len() || s[i] == c,
    ensures
        first_index(s, c) == (if i < s.len() { Some(i) } else { None::<int> }),
    decreases s.len(),
{
    if s.len() > 0 {
        if i < s.len() - 1 {
            assert(s.drop_last()[i] == s[i]);
            lemma_first_index(s.drop_last(), c, i);
        } else if i == s.len() - 1 {
            lemma_first_index(s.drop_last(), c, i);
        } else {
            lemma_first_index(s.drop_last(), c, s.len() - 1);
        }
    }
}

proof fn lemma_last_index(s: Seq<char>, c: char, i: int)
    requires
        -1 <= i < s.len(),
        forall|j: int| i < j < s.len() ==> s[j] != c,
        i == -1 || s[i] == c,
    ensures
        last_index(s, c) == (if i >= 0 { Some(i) } else { None::<int> }),
    decreases s.len(),
{
    if s.len() > 0 && i < s.len() - 1 {
        assert forall|j: int| i < j < s.drop_last().len() implies s.drop_last()[j] != c by {
            assert(s.drop_last()[j] == s[j]);
        }
        if i >= 0 {
            assert(s.drop_last()[i] == s[i]);
        }
        lemma_last_index(s.drop_last(), c, i);
    }
}

/// The name between the first and last double quote of a row.
pub fn parse_physical_name(raw: &[char], line: usize) -> (r: Result<String, FileIoError>)
    ensures
        match r {
            Ok(n) => quoted_name(raw@, line) == Ok::<Seq<char>, IoFault>(n@),
            Err(e) => quoted_name(raw@, line) == Err::<Seq<char>, IoFault>(e@),
        },
{
    let mut a: usize = 0;
    while a < raw.len() && raw[a] != '"'
        invariant
            a <= raw@.len(),
            forall|j: int| 0 <= j < a ==> raw@[j] != '"',
        decreases raw@.len() - a,
    {
        a += 1;
    }
    proof {
        lemma_first_index(raw@, '"', a as int);
    }
    if a == raw.len() {
        proof {
            lemma_last_index(raw@, '"', -1);
        }
        return Err(FileIoError::InvalidLine { line, expected: "quoted physical name" });
    }
    let mut b = raw.len() - 1;
    while b > a && raw[b] != '"'
        invariant
            a <= b < raw@.len(),
            raw@[a as int] == '"',
            forall|j: int| b < j < raw@.len() ==> raw@[j] != '"',
        decreases b,
    {
        b -= 1;
    }
    proof {
        lemma_last_index(raw@, '"', b as int);
    }
    if a == b {
        return Err(FileIoError::InvalidLine { line, expected: "quoted physical name" });
    }
    let name = crate::text::copy_range(raw, a + 1, b);
    Ok(string_from(name.as_slice()))
}

fn physical_row_exec(lines: &Vec<Vec<char>>, li: usize) -> (r: Result<
    ((usize, usize), (EntityDimension, String)),
    FileIoError,
>)
    requires
        li <= lines@.len(),
        lines@.len() < usize::MAX,
    ensures
        match r {
            Ok((key, (d, n))) => physical_row(char_views(lines@), li as int) == Ok::<
                ((usize, usize), PhysicalView),
                IoFault,
            >((key, (d, n@))),
            Err(e) => physical_row(char_views(lines@), li as int) == Err::<
                ((usize, usize), PhysicalView),
                IoFault,
            >(e@),
        },
{
    let line = li + 1;
    if li >= lines.len() {
        return Err(FileIoError::InvalidLine { line, expected: "physical name row" });
    }
    let t = split_words(lines[li].as_slice());
    if t.len() < 3 {
        return Err(FileIoError::InvalidLine { line, expected: "<dimension> <tag> <name>" });
    }
    let d = parse_usize(line, t[0].as_slice())?;
    let tag = parse_usize(line, t[1].as_slice())?;
    let dim = gmsh_dimension_exec(d, line)?;
    let name = parse_physical_name(lines[li].as_slice(), line)?;
    Ok(((d, tag), (dim, name)))
}

proof fn lemma_physical_rows_stop(lines: Seq<Seq<char>>, index: int, k: nat, n: nat)
    requires
        k <= n,
        physical_rows(lines, index, k) is Err,
    ensures
        physical_rows(lines, index, n) == physical_rows(lines, index, k),
    decreases n,
{
    if n > k {
        lemma_physical_rows_stop(lines, index, k, (n - 1) as nat);
    }
}

fn physical_section_exec(lines: &Vec<Vec<char>>, index: usize) -> (r: Result<
    (usize, BTreeMap<(usize, usize), (EntityDimension, String)>),
    FileIoError,
>)
    requires
        index <= lines@.len(),
        lines@.len() < usize::MAX,
    ensures
        match r {
            Ok((next, m)) => physical_section(char_views(lines@), index as int) == Ok::<
                (int, Map<(usize, usize), PhysicalView>),
                IoFault,
            >((next as int, name_views(m@))),
            Err(e) => physical_section(char_views(lines@), index as int) == Err::<
                (int, Map<(usize, usize), PhysicalView>),
                IoFault,
            >(e@),
        },
{
    let ghost ls = char_views(lines@);
    let count = count_row_exec(lines, index, "physical name count")?;
    let mut names: BTreeMap<(usize, usize), (EntityDimension, String)> = BTreeMap::new();
    let mut offset: usize = 0;
    assert(name_views(names@) =~= Map::<(usize, usize), PhysicalView>::empty());
    while offset < count
        invariant
            index < lines@.len(),
            lines@.len() < usize::MAX,
            ls == char_views(lines@),
            offset <= count,
            index + offset < lines@.len(),
            count_row(ls, index as int, "physical name count"@) == Ok::<usize, IoFault>(count),
            physical_rows(ls, index as int, offset as nat) == Ok::<
                Map<(usize, usize), PhysicalView>,
                IoFault,
            >(name_views(names@)),
        decreases count - offset,
    {
        let li = index + 1 + offset;
        match physical_row_exec(lines, li) {
            Err(e) => {
                proof {
                    lemma_physical_rows_stop(ls, index as int, (offset + 1) as nat, count as nat);
                }
                return Err(e);
            },
            Ok((key, value)) => {
                let ghost v = (value.0, value.1@);
                let ghost before = names@;
                names.insert(key, value);
                assert(name_views(names@) =~= name_views(before).insert(key, v));
            },
        }
        offset += 1;
    }
    let next = skip_to_end_exec(lines, index + 1 + count, "$EndPhysicalNames");
    Ok((next, names))
}

fn node_row_exec(lines: &Vec<Vec<char>>, li: usize) -> (r: Result<(usize, [Decimal; 3]), FileIoError>)
    requires
        li <= lines@.len(),
        lines@.len() < usize::MAX,
    ensures
        match r {
            Ok((id, c)) => node_row(char_views(lines@), li as int) == Ok::<(usize, CoordsView), IoFault>(
                (id, (c@[0]@, c@[1]@, c@[2]@)),
            ),
            Err(e) => node_row(char_views(lines@), li as int) == Err::<(usize, CoordsView), IoFault>(
                e@,
            ),
        },
{
    let line = li + 1;
    if li >= lines.len() {
        return Err(FileIoError::InvalidLine { line, expected: "node row" });
    }
    let t = split_words(lines[li].as_slice());
    if t.len() != 4 {
        return Err(FileIoError::InvalidLine { line, expected: "<node_id> <x> <y> <z>" });
    }
    let id = parse_usize(line, t[0].as_slice())?;
    let x = parse_decimal(line, t[1].as_slice())?;
    let y = parse_decimal(line, t[2].as_slice())?;
    let z = parse_decimal(line, t[3].as_slice())?;
    Ok((id, [x, y, z]))
}

proof fn lemma_node_rows_stop(lines: Seq<Seq<char>>, index: int, k: nat, n: nat)
    requires
        k <= n,
        node_rows(lines, index, k) is Err,
    ensures
        node_rows(lines, index, n) == node_rows(lines, index, k),
    decreases n,
{
    if n > k {
        lemma_node_rows_stop(lines, index, k, (n - 1) as nat);
    }
}

fn node_section_exec(lines: &Vec<Vec<char>>, index: usize) -> (r: Result<
    (usize, BTreeMap<usize, [Decimal; 3]>),
    FileIoError,
>)
    requires
        index <= lines@.len(),
        lines@.len() < usize::MAX,
    ensures
        match r {
            Ok((next, m)) => node_section(char_views(lines@), index as int) == Ok::<
                (int, Map<usize, CoordsView>),
                IoFault,
            >((next as int, coords_views(m@))),
            Err(e) => node_section(char_views(lines@), index as int) == Err::<
                (int, Map<usize, CoordsView>),
                IoFault,
            >(e@),
        },
{
    let ghost ls = char_views(lines@);
    let count = count_row_exec(lines, index, "node count")?;
    let mut nodes: BTreeMap<usize, [Decimal; 3]> = BTreeMap::new();
    let mut offset: usize = 0;
    assert(coords_views(nodes@) =~= Map::<usize, CoordsView>::empty());
    while offset < count
        invariant
            index < lines@.len(),
            lines@.len() < usize::MAX,
            ls == char_views(lines@),
            offset <= count,
            index + offset < lines@.len(),
            count_row(ls, index as int, "node count"@) == Ok::<usize, IoFault>(count),
            node_rows(ls, index as int, offset as nat) == Ok::<Map<usize, CoordsView>, IoFault>(
                coords_views(nodes@),
            ),
        decreases count - offset,
    {
        let li = index + 1 + offset;
        match node_row_exec(lines, li) {
            Err(e) => {
                proof {
                    lemma_node_rows_stop(ls, index as int, (offset + 1) as nat, count as nat);
                }
                return Err(e);
            },
            Ok((id, c)) => {
                let ghost v = (c@[0]@, c@[1]@, c@[2]@);
                let ghost before = nodes@;
                assert(coords_views(before).dom() =~= before.dom());
                if nodes.insert(id, c).is_some() {
                    proof {
                        lemma_node_rows_stop(ls, index as int, (offset + 1) as nat, count as nat);
                    }
                    return Err(FileIoError::DuplicateId { line: li + 1, id });
                }
                assert(coords_views(nodes@) =~= coords_views(before).insert(id, v));
            },
        }
        offset += 1;
    }
    let next = skip_to_end_exec(lines, index + 1 + count, "$EndNodes");
    Ok((next, nodes))
}

fn usize_tokens_exec(line: usize, toks: &Vec<Vec<char>>, from: usize) -> (r: Result<
    Vec<usize>,
    FileIoError,
>)
    requires
        from <= toks@.len(),
    ensures
        match r {
            Ok(v) => usize_tokens(line, char_views(toks@).skip(from as int)) == Ok::<
                Seq<usize>,
                IoFault,
            >(v@),
            Err(e) => usize_tokens(line, char_views(toks@).skip(from as int)) == Err::<
                Seq<usize>,
                IoFault,
            >(e@),
        },
{
    let ghost ts = char_views(toks@).skip(from as int);
    let mut out: Vec<usize> = Vec::new();
    let mut i = from;
    assert(ts.take(0) =~= Seq::<Seq<char>>::empty());
    while i < toks.len()
        invariant
            from <= i <= toks@.len(),
            ts == char_views(toks@).skip(from as int),
            usize_tokens(line, ts.take(i - from)) == Ok::<Seq<usize>, IoFault>(out@),
        decreases toks@.len() - i,
    {
        assert(ts.take(i - from + 1).drop_last() =~= ts.take(i - from));
        assert(ts.take(i - from + 1).last() == toks@[i as int]@);
        match parse_usize(line, toks[i].as_slice()) {
            Ok(v) => {
                out.push(v);
            },
            Err(e) => {
                proof {
                    lemma_usize_tokens_stop(line, ts, i - from + 1);
                }
                return Err(e);
            },
        }
        i += 1;
    }
    assert(ts.take(i - from) =~= ts);
    Ok(out)
}

proof fn lemma_usize_tokens_stop(line: usize, toks: Seq<Seq<char>>, n: int)
    requires
        0 <= n <= toks.len(),
        usize_tokens(line, toks.take(n)) is Err,
    ensures
        usize_tokens(line, toks) == usize_tokens(line, toks.take(n)),
    decreases toks.len(),
{
    if n < toks.len() {
        assert(toks.drop_last().take(n) =~= toks.take(n));
        lemma_usize_tokens_stop(line, toks.drop_last(), n);
    } else {
        assert(toks.take(n) =~= toks);
    }
}

fn element_row_exec(lines: &Vec<Vec<char>>, li: usize) -> (r: Result<ElementRecord, FileIoError>)
    requires
        li <= lines@.len(),
        lines@.len() < usize::MAX,
    ensures
        match r {
            Ok(e) => element_row(char_views(lines@), li as int) == Ok::<ElementRow, IoFault>(
                ElementRow { kind: e.kind, tag: e.physical_tag, nodes: e.nodes@, line: e.line },
            ),
            Err(e) => element_row(char_views(lines@), li as int) == Err::<ElementRow, IoFault>(e@),
        },
{
    let line = li + 1;
    if li >= lines.len() {
        return Err(FileIoError::InvalidLine { line, expected: "element row" });
    }
    let t = split_words(lines[li].as_slice());
    if t.len() < 4 {
        return Err(
            FileIoError::InvalidLine { line, expected: "<id> <type> <tag_count> <tags...> <nodes...>" },
        );
    }
    let element_type = parse_usize(line, t[1].as_slice())?;
    let kind = match element_kind_from_gmsh(element_type) {
        Some(k) => k,
        None => {
            return Err(FileIoError::UnsupportedGmshElement { line, element_type });
        },
    };
    let tag_count = parse_usize(line, t[2].as_slice())?;
    let n = kind.node_count();
    let fits = match tag_count.checked_add(3 + n) {
        Some(total) => total == t.len(),
        None => false,
    };
    if !fits {
        return Err(
            FileIoError::InvalidLine {
                line,
                expected: "a supported Gmsh element with the expected number of nodes",
            },
        );
    }
    let physical_tag = if tag_count > 0 {
        Some(parse_usize(line, t[3].as_slice())?)
    } else {
        None
    };
    let nodes = usize_tokens_exec(line, &t, 3 + tag_count)?;
    Ok(ElementRecord { kind, physical_tag, nodes, line })
}

proof fn lemma_element_rows_stop(lines: Seq<Seq<char>>, index: int, k: nat, n: nat)
    requires
        k <= n,
        element_rows(lines, index, k) is Err,
    ensures
        element_rows(lines, index, n) == element_rows(lines, index, k),
    decreases n,
{
    if n > k {
        lemma_element_rows_stop(lines, index, k, (n - 1) as nat);
    }
}

fn element_section_exec(lines: &Vec<Vec<char>>, index: usize) -> (r: Result<
    (usize, Vec<ElementRecord>),
    FileIoError,
>)
    requires
        index <= lines@.len(),
        lines@.len() < usize::MAX,
    ensures
        match r {
            Ok((next, es)) => element_section(char_views(lines@), index as int) == Ok::<
                (int, Seq<ElementRow>),
                IoFault,
            >((next as int, record_views(es@))),
            Err(e) => element_section(char_views(lines@), index as int) == Err::<
                (int, Seq<ElementRow>),
                IoFault,
            >(e@),
        },
{
    let ghost ls = char_views(lines@);
    let count = count_row_exec(lines, index, "element count")?;
    let mut elements: Vec<ElementRecord> = Vec::new();
    let mut offset: usize = 0;
    assert(record_views(elements@) =~= Seq::<ElementRow>::empty());
    while offset < count
        invariant
            index < lines@.len(),
            lines@.len() < usize::MAX,
            ls == char_views(lines@),
            offset <= count,
            index + offset < lines@.len(),
            count_row(ls, index as int, "element count"@) == Ok::<usize, IoFault>(count),
            element_rows(ls, index as int, offset as nat) == Ok::<Seq<ElementRow>, IoFault>(
                record_views(elements@),
            ),
        decreases count - offset,
    {
        let li = index + 1 + offset;
        match element_row_exec(lines, li) {
            Err(e) => {
                proof {
                    lemma_element_rows_stop(ls, index as int, (offset + 1) as nat, count as nat);
                }
                return Err(e);
            },
            Ok(rec) => {
                let ghost v = ElementRow { kind: rec.kind, tag: rec.physical_tag, nodes: rec.nodes@, line: rec.line };
                let ghost before = elements@;
                elements.push(rec);
                assert(record_views(elements@) =~= record_views(before).push(v));
            },
        }
        offset += 1;
    }
    let next = skip_to_end_exec(lines, index + 1 + count, "$EndElements");
    Ok((next, elements))
}

/// A region by its id, name and dimension.
pub type RegionView = (usize, Seq<char>, EntityDimension);

/// The position of `id` in `ks`, if it is there.
pub open spec fn position_of(ks: Seq<usize>, id: usize) -> Option<int>
    decreases ks.len(),
{
    if ks.len() == 0 {
        None
    } else if let Some(i) = position_of(ks.drop_last(), id) {
        Some(i)
    } else if ks.last() == id {
        Some(ks.len() - 1)
    } else {
        None
    }
}

/// Gmsh node ids replaced by their positions in `ks`; the first id that is
/// not there is an unknown node.
pub open spec fn renumber(ks: Seq<usize>, nodes: Seq<usize>, line: usize) -> Result<Seq<usize>, IoFault>
    decreases nodes.len(),
{
    if nodes.len() == 0 {
        Ok(seq![])
    } else {
        match renumber(ks, nodes.drop_last(), line) {
            Err(e) => Err(e),
            Ok(vs) => match position_of(ks, nodes.last()) {
                None => Err(IoFault::UnknownGmshNode { line, node_id: nodes.last() }),
                Some(p) => Ok(vs.push(p as usize)),
            },
        }
    }
}

/// The name of a physical group without a `$PhysicalNames` entry.
pub open spec fn default_physical_name(dim: usize, tag: usize) -> Seq<char> {
    "physical_"@ + decimal_text(dim as nat) + "_"@ + decimal_text(tag as nat)
}

/// The regions made so far, by physical group key, and the cells.
pub struct GmshBuild {
    pub region_of: Map<(usize, usize), usize>,
    pub regions: Seq<RegionView>,
    pub cells: Seq<CellView>,
}

/// The region of an element's physical group: the one made for its
/// dimension and tag, or a new one, named as `$PhysicalNames` says.
pub open spec fn element_region(
    b: GmshBuild,
    names: Map<(usize, usize), PhysicalView>,
    e: ElementRow,
) -> (Option<usize>, GmshBuild) {
    match e.tag {
        None => (None, b),
        Some(tag) => {
            let d = e.kind.dimension_of().dim() as usize;
            let key = (d, tag);
            if b.region_of.contains_key(key) {
                (Some(b.region_of[key]), b)
            } else {
                let id = b.regions.len() as usize;
                let name = if names.contains_key(key) {
                    names[key].1
                } else {
                    default_physical_name(d, tag)
                };
                let dim = if names.contains_key(key) {
                    names[key].0
                } else {
                    e.kind.dimension_of()
                };
                (
                    Some(id),
                    GmshBuild {
                        region_of: b.region_of.insert(key, id),
                        regions: b.regions.push((id, name, dim)),
                        ..b
                    },
                )
            }
        },
    }
}

/// The cells and regions the first elements make.
pub open spec fn build_rows(
    names: Map<(usize, usize), PhysicalView>,
    ks: Seq<usize>,
    es: Seq<ElementRow>,
) -> Result<GmshBuild, IoFault>
    decreases es.len(),
{
    if es.len() == 0 {
        Ok(GmshBuild { region_of: Map::empty(), regions: seq![], cells: seq![] })
    } else {
        match build_rows(names, ks, es.drop_last()) {
            Err(err) => Err(err),
            Ok(b) => {
                let e = es.last();
                let (region, b1) = element_region(b, names, e);
                match renumber(ks, e.nodes, e.line) {
                    Err(err) => Err(err),
                    Ok(ns) => Ok(
                        GmshBuild {
                            cells: b1.cells.push(CellView { kind: e.kind, nodes: ns, region }),
                            ..b1
                        },
                    ),
                }
            },
        }
    }
}

/// Regions are numbered from zero in the order they are made, each
/// physical group points at its own region, and every cell's region is one
/// of them.
pub open spec fn regions_numbered(b: GmshBuild) -> bool {
    &&& forall|i: int| 0 <= i < b.regions.len() ==> (#[trigger] b.regions[i]).0 == i
    &&& forall|k: (usize, usize)| #[trigger]
        b.region_of.contains_key(k) ==> b.region_of[k] < b.regions.len()
    &&& forall|c: int|
        0 <= c < b.cells.len() ==> ((#[trigger] b.cells[c]).region matches Some(r) ==> r
            < b.regions.len())
}

/// However the elements of a Gmsh file are written, the regions made for
/// their physical groups are numbered `0, 1, ...` in order of first use,
/// and every cell lies in one of them (for as many elements as a machine
/// can count).
pub proof fn lemma_gmsh_regions_numbered(
    names: Map<(usize, usize), PhysicalView>,
    ks: Seq<usize>,
    es: Seq<ElementRow>,
)
    requires
        es.len() <= usize::MAX,
    ensures
        build_rows(names, ks, es) matches Ok(b) ==> regions_numbered(b) && b.regions.len()
            <= es.len(),
    decreases es.len(),
{
    if es.len() > 0 {
        lemma_gmsh_regions_numbered(names, ks, es.drop_last());
        if let Ok(b) = build_rows(names, ks, es.drop_last()) {
            let e = es.last();
            let (region, b1) = element_region(b, names, e);
            if let Some(tag) = e.tag {
                let key = (e.kind.dimension_of().dim() as usize, tag);
            }
            if let Ok(ns) = renumber(ks, e.nodes, e.line) {
                let out = GmshBuild {
                    cells: b1.cells.push(CellView { kind: e.kind, nodes: ns, region }),
                    ..b1
                };
                assert(build_rows(names, ks, es) == Ok::<GmshBuild, IoFault>(out));
                assert forall|c: int| 0 <= c < out.cells.len() implies ((#[trigger] out.cells[c]).region matches Some(r) ==> r
                    < out.regions.len()) by {
                    if c < b1.cells.len() {
                        assert(out.cells[c] == b1.cells[c]);
                    }
                }
            }
        }
    }
}

/// The points, cells and regions that parsed sections make: the nodes in
/// ascending order of their ids (three coordinates each), the cells with
/// nodes numbered by that order, and one region per physical group used,
/// numbered in order of first use; or why they do not form a mesh.
pub open spec fn gmsh_build(
    names: Map<(usize, usize), PhysicalView>,
    nodes: Map<usize, CoordsView>,
    elements: Seq<ElementRow>,
) -> Result<(Seq<CoordsView>, Seq<CellView>, Seq<RegionView>), IoFault> {
    let ks = ascending_ids(nodes.dom());
    match build_rows(names, ks, elements) {
        Err(e) => Err(e),
        Ok(b) => {
            let points = ks.map_values(|k: usize| nodes[k]);
            let ids = b.regions.map_values(|r: RegionView| r.0);
            match region_ids_error(ids) {
                Some(e) => Err(IoFault::Mesh(e)),
                None => match cell_views_error(b.cells, points.len(), ids) {
                    Some(e) => Err(IoFault::Mesh(e)),
                    None => Ok((points, b.cells, b.regions)),
                },
            }
        },
    }
}

/// The mesh a Gmsh text describes, or why it describes none.
pub open spec fn gmsh_mesh(s: Seq<char>) -> Result<
    (Seq<CoordsView>, Seq<CellView>, Seq<RegionView>),
    IoFault,
> {
    match gmsh_sections(s) {
        Err(e) => Err(e),
        Ok(st) => gmsh_build(st.names, st.nodes, st.elements),
    }
}

/// The three coordinate texts of a node as a sequence.
pub open spec fn coords_seq(c: CoordsView) -> Seq<Seq<char>> {
    seq![c.0, c.1, c.2]
}

fn read_sections(input: &str) -> (r: Result<
    (
        BTreeMap<(usize, usize), (EntityDimension, String)>,
        BTreeMap<usize, [Decimal; 3]>,
        Vec<ElementRecord>,
    ),
    FileIoError,
>)
    requires
        input@.len() < usize::MAX,
    ensures
        match r {
            Ok((names, nodes, es)) => gmsh_sections(input@) == Ok::<GmshSections, IoFault>(
                GmshSections {
                    names: name_views(names@),
                    nodes: coords_views(nodes@),
                    elements: record_views(es@),
                    saw_nodes: true,
                    saw_elements: true,
                },
            ),
            Err(e) => gmsh_sections(input@) == Err::<GmshSections, IoFault>(e@),
        },
{
    let chars = chars_of(input);
    let lines = split_lines(chars.as_slice());
    let ghost ls = char_views(lines@);
    let mut names: BTreeMap<(usize, usize), (EntityDimension, String)> = BTreeMap::new();
    let mut nodes: BTreeMap<usize, [Decimal; 3]> = BTreeMap::new();
    let mut elements: Vec<ElementRecord> = Vec::new();
    let mut saw_nodes = false;
    let mut saw_elements = false;
    let ghost start = GmshSections {
        names: Map::empty(),
        nodes: Map::empty(),
        elements: seq![],
        saw_nodes: false,
        saw_elements: false,
    };
    assert(name_views(names@) =~= Map::<(usize, usize), PhysicalView>::empty());
    assert(coords_views(nodes@) =~= Map::<usize, CoordsView>::empty());
    assert(record_views(elements@) =~= Seq::<ElementRow>::empty());
    let mut index: usize = 0;
    while index < lines.len()
        invariant
            index <= lines@.len(),
            lines@.len() < usize::MAX,
            ls == char_views(lines@),
            ls == lines_of(input@),
            start == (GmshSections {
                names: Map::empty(),
                nodes: Map::empty(),
                elements: seq![],
                saw_nodes: false,
                saw_elements: false,
            }),
            gmsh_scan(ls, 0, start) == gmsh_scan(
                ls,
                index as int,
                GmshSections {
                    names: name_views(names@),
                    nodes: coords_views(nodes@),
                    elements: record_views(elements@),
                    saw_nodes,
                    saw_elements,
                },
            ),
        decreases lines@.len() - index,
    {
        proof {
            lemma_sections_advance(ls, index as int);
        }
        let l = trim_chars(lines[index].as_slice());
        assert(ls[index as int] == lines@[index as int]@);
        assert(l@ == trim(ls[index as int]));
        if is_literal(l.as_slice(), "$MeshFormat") {
            match mesh_format_exec(&lines, index + 1) {
                Ok(next) => {
                    index = next;
                },
                Err(e) => {
                    return Err(e);
                },
            }
        } else if is_literal(l.as_slice(), "$PhysicalNames") {
            let (next, parsed) = physical_section_exec(&lines, index + 1)?;
            names = parsed;
            index = next;
        } else if is_literal(l.as_slice(), "$Nodes") {
            let (next, parsed) = node_section_exec(&lines, index + 1)?;
            nodes = parsed;
            saw_nodes = true;
            index = next;
        } else if is_literal(l.as_slice(), "$Elements") {
            let (next, parsed) = element_section_exec(&lines, index + 1)?;
            elements = parsed;
            saw_elements = true;
            index = next;
        } else {
            index += 1;
        }
    }
    if !saw_nodes {
        return Err(FileIoError::MissingGmshNodes);
    }
    if !saw_elements {
        return Err(FileIoError::MissingGmshElements);
    }
    Ok((names, nodes, elements))
}

/// In an ascending sequence each element's position is where it stands,
/// and absent ids have none.
proof fn lemma_position_of(ks: Seq<usize>, id: usize)
    requires
        ascending(ks),
    ensures
        forall|j: int| 0 <= j < ks.len() && ks[j] == id ==> position_of(ks, id) == Some(j),
        !ks.contains(id) ==> position_of(ks, id) is None,
    decreases ks.len(),
{
    if ks.len() > 0 {
        let p = ks.drop_last();
        assert(ascending(p));
        lemma_position_of(p, id);
        if ks.last() == id {
            assert forall|j: int| 0 <= j < p.len() implies p[j] != id by {
                assert(ks[j] < ks[ks.len() - 1]);
            }
            assert(!p.contains(id));
        }
        assert forall|j: int| 0 <= j < ks.len() && ks[j] == id implies position_of(ks, id) == Some(j) by {
            if j < p.len() {
                assert(p[j] == ks[j]);
            }
        }
        if !ks.contains(id) {
            assert(!p.contains(id)) by {
                if p.contains(id) {
                    let j = choose|j: int| 0 <= j < p.len() && p[j] == id;
                    assert(ks[j] == id);
                }
            }
        }
    }
}

/// `rank` maps each id of `ks` to its position and nothing else.
spec fn ranks(rank: Map<usize, usize>, ks: Seq<usize>) -> bool {
    &&& forall|id: usize| rank.contains_key(id) <==> ks.contains(id)
    &&& forall|j: int| 0 <= j < ks.len() ==> rank[#[trigger] ks[j]] == j
}

fn rank_map(ks: &Vec<usize>) -> (r: BTreeMap<usize, usize>)
    requires
        ascending(ks@),
    ensures
        ranks(r@, ks@),
{
    let mut rank: BTreeMap<usize, usize> = BTreeMap::new();
    let mut i: usize = 0;
    while i < ks.len()
        invariant
            i <= ks@.len(),
            ascending(ks@),
            forall|id: usize|
                rank@.contains_key(id) <==> exists|j: int| 0 <= j < i && #[trigger] ks@[j] == id,
            forall|j: int| 0 <= j < i ==> rank@[#[trigger] ks@[j]] == j,
        decreases ks@.len() - i,
    {
        rank.insert(ks[i], i);
        assert forall|id: usize|
            rank@.contains_key(id) <==> exists|j: int| 0 <= j < i + 1 && #[trigger] ks@[j] == id by {
            if id == ks@[i as int] {
                assert(ks@[i as int] == id);
            }
            if exists|j: int| 0 <= j < i + 1 && #[trigger] ks@[j] == id {
                let j = choose|j: int| 0 <= j < i + 1 && #[trigger] ks@[j] == id;
                if j < i {
                    assert(exists|j: int| 0 <= j < i && #[trigger] ks@[j] == id);
                }
            }
        }
        assert forall|j: int| 0 <= j < i + 1 implies rank@[#[trigger] ks@[j]] == j by {
            if j < i {
                assert(ks@[j] < ks@[i as int]);
            }
        }
        i += 1;
    }
    assert forall|id: usize| rank@.contains_key(id) <==> ks@.contains(id) by {
        if ks@.contains(id) {
            let j = choose|j: int| 0 <= j < ks@.len() && ks@[j] == id;
            assert(exists|j: int| 0 <= j < ks@.len() && #[trigger] ks@[j] == id);
        }
    }
    rank
}

proof fn lemma_renumber_stop(ks: Seq<usize>, nodes: Seq<usize>, line: usize, n: int)
    requires
        0 <= n <= nodes.len(),
    ensures
        renumber(ks, nodes.take(n), line) is Err ==> renumber(ks, nodes, line) == renumber(
            ks,
            nodes.take(n),
            line,
        ),
    decreases nodes.len(),
{
    if n < nodes.len() {
        assert(nodes.drop_last().take(n) =~= nodes.take(n));
        lemma_renumber_stop(ks, nodes.drop_last(), line, n);
    } else {
        assert(nodes.take(n) =~= nodes);
    }
}

fn renumber_exec(rank: &BTreeMap<usize, usize>, ks: &Vec<usize>, nodes: &Vec<usize>, line: usize) -> (r: Result<
    Vec<usize>,
    FileIoError,
>)
    requires
        ascending(ks@),
        ranks(rank@, ks@),
    ensures
        match r {
            Ok(v) => renumber(ks@, nodes@, line) == Ok::<Seq<usize>, IoFault>(v@),
            Err(e) => renumber(ks@, nodes@, line) == Err::<Seq<usize>, IoFault>(e@),
        },
{
    let mut out: Vec<usize> = Vec::new();
    let mut i: usize = 0;
    assert(nodes@.take(0) =~= Seq::<usize>::empty());
    while i < nodes.len()
        invariant
            i <= nodes@.len(),
            ascending(ks@),
            ranks(rank@, ks@),
            renumber(ks@, nodes@.take(i as int), line) == Ok::<Seq<usize>, IoFault>(out@),
        decreases nodes@.len() - i,
    {
        let id = nodes[i];
        assert(nodes@.take(i + 1).drop_last() =~= nodes@.take(i as int));
        assert(nodes@.take(i + 1).last() == id);
        proof {
            lemma_position_of(ks@, id);
            lemma_renumber_stop(ks@, nodes@, line, i + 1);
        }
        match rank.get(&id) {
            Some(p) => {
                proof {
                    assert(rank@.contains_key(id) && rank@[id] == *p);
                    assert(ks@.contains(id));
                    let j = choose|j: int| 0 <= j < ks@.len() && ks@[j] == id;
                    assert(rank@[ks@[j]] == j);
                    assert(position_of(ks@, id) == Some(j));
                }
                out.push(*p);
                assert(out@ =~= renumber(ks@, nodes@.take(i as int), line)->Ok_0.push(*p));
            },
            None => {
                return Err(FileIoError::UnknownGmshNode { line, node_id: id });
            },
        }
        i += 1;
    }
    assert(nodes@.take(nodes@.len() as int) =~= nodes@);
    Ok(out)
}

/// The name of a physical group without a `$PhysicalNames` entry.
fn default_name_exec(d: usize, tag: usize) -> (r: String)
    ensures
        r@ == default_physical_name(d, tag),
{
    let mut s = String::new();
    crate::text::append_str(&mut s, "physical_");
    let dt = usize_text(d);
    crate::text::append_chars(&mut s, dt.as_slice());
    crate::text::append_str(&mut s, "_");
    let tt = usize_text(tag);
    crate::text::append_chars(&mut s, tt.as_slice());
    s
}

proof fn lemma_build_rows_stop(
    names: Map<(usize, usize), PhysicalView>,
    ks: Seq<usize>,
    es: Seq<ElementRow>,
    n: int,
)
    requires
        0 <= n <= es.len(),
    ensures
        build_rows(names, ks, es.take(n)) is Err ==> build_rows(names, ks, es) == build_rows(
            names,
            ks,
            es.take(n),
        ),
    decreases es.len(),
{
    if n < es.len() {
        assert(es.drop_last().take(n) =~= es.take(n));
        lemma_build_rows_stop(names, ks, es.drop_last(), n);
    } else {
        assert(es.take(n) =~= es);
    }
}

fn build_topology(
    names: &BTreeMap<(usize, usize), (EntityDimension, String)>,
    nodes: &BTreeMap<usize, [Decimal; 3]>,
    elements: &Vec<ElementRecord>,
) -> (r: Result<MeshTopology, FileIoError>)
    ensures
        match r {
            Ok(t) => gmsh_build(name_views(names@), coords_views(nodes@), record_views(elements@)) matches Ok(
                (pts, cells, regions),
            ) && t.spec_dimension() == 3 && crate::mesh::pointd_views(t.spec_points()) == pts.map_values(
                |c: CoordsView| coords_seq(c),
            ) && cell_views(t.spec_cells()) == cells && crate::mesh::region_views(t.spec_regions())
                == regions,
            Err(e) => gmsh_build(name_views(names@), coords_views(nodes@), record_views(elements@))
                == Err::<(Seq<CoordsView>, Seq<CellView>, Seq<RegionView>), IoFault>(e@),
        },
{
    let ghost nv = name_views(names@);
    let ghost cv = coords_views(nodes@);
    let ghost es = record_views(elements@);
    assert(cv.dom() =~= nodes@.dom());
    let ks = sorted_keys(nodes);
    assert(ks@ == ascending_ids(cv.dom()));
    let rank = rank_map(&ks);
    let ghost spec_points = ks@.map_values(|k: usize| cv[k]);
    let mut points: Vec<PointD> = Vec::new();
    let mut i: usize = 0;
    while i < ks.len()
        invariant
            i <= ks@.len(),
            ks@.to_set() == nodes@.dom(),
            cv == coords_views(nodes@),
            spec_points == ks@.map_values(|k: usize| cv[k]),
            points@.len() == i,
            forall|j: int| 0 <= j < i ==> (#[trigger] points@[j]).coords@.len() == 3,
            crate::mesh::pointd_views(points@) == spec_points.take(i as int).map_values(
                |c: CoordsView| coords_seq(c),
            ),
        decreases ks@.len() - i,
    {
        assert(ks@.to_set().contains(ks@[i as int]));
        match nodes.get(&ks[i]) {
            Some(c) => {
                let mut coords: Vec<Decimal> = Vec::new();
                coords.push(c[0].copy());
                coords.push(c[1].copy());
                coords.push(c[2].copy());
                let p = PointD::new(coords);
                let ghost prev = points@;
                points.push(p);
                assert(p.coords@.map_values(|d: Decimal| d@) =~= coords_seq(cv[ks@[i as int]]));
                assert(crate::mesh::pointd_views(points@) =~= crate::mesh::pointd_views(prev).push(
                    p.coords@.map_values(|d: Decimal| d@),
                ));
                assert(spec_points.take(i + 1).map_values(|c: CoordsView| coords_seq(c))
                    =~= spec_points.take(i as int).map_values(|c: CoordsView| coords_seq(c)).push(
                    coords_seq(cv[ks@[i as int]]),
                ));
            },
            None => {
                assert(false);
            },
        }
        i += 1;
    }
    assert(spec_points.take(ks@.len() as int) =~= spec_points);
    let mut region_of: BTreeMap<(usize, usize), usize> = BTreeMap::new();
    let mut regions: Vec<Region> = Vec::new();
    let mut cells: Vec<Cell> = Vec::new();
    let mut k: usize = 0;
    assert(es.take(0) =~= Seq::<ElementRow>::empty());
    assert(crate::mesh::region_views(regions@) =~= Seq::<RegionView>::empty());
    assert(cell_views(cells@) =~= Seq::<CellView>::empty());
    while k < elements.len()
        invariant
            k <= elements@.len(),
            nv == name_views(names@),
            es == record_views(elements@),
            ascending(ks@),
            ks@ == ascending_ids(coords_views(nodes@).dom()),
            ranks(rank@, ks@),
            build_rows(nv, ks@, es.take(k as int)) == Ok::<GmshBuild, IoFault>(
                GmshBuild {
                    region_of: region_of@,
                    regions: crate::mesh::region_views(regions@),
                    cells: cell_views(cells@),
                },
            ),
        decreases elements@.len() - k,
    {
        let e = &elements[k];
        let ghost row = es[k as int];
        assert(es.take(k + 1).drop_last() =~= es.take(k as int));
        assert(es.take(k + 1).last() == row);
        proof {
            lemma_build_rows_stop(nv, ks@, es, k + 1);
        }
        let ghost b = GmshBuild {
            region_of: region_of@,
            regions: crate::mesh::region_views(regions@),
            cells: cell_views(cells@),
        };
        let region: Option<usize> = match e.physical_tag {
            None => None,
            Some(tag) => {
                let d = e.kind.entity_dimension().spatial_dimension();
                let key = (d, tag);
                match region_of.get(&key) {
                    Some(id) => Some(*id),
                    None => {
                        let id = regions.len();
                        let (name, dim) = match names.get(&key) {
                            Some(v) => (v.1.clone(), v.0),
                            None => (default_name_exec(d, tag), e.kind.entity_dimension()),
                        };
                        let ghost rv = (id, name@, dim);
                        region_of.insert(key, id);
                        let ghost before = regions@;
                        regions.push(Region::new(id, name, dim));
                        assert(crate::mesh::region_views(regions@) =~= crate::mesh::region_views(
                            before,
                        ).push(rv));
                        Some(id)
                    },
                }
            },
        };
        assert(element_region(b, nv, row).0 == region);
        assert(element_region(b, nv, row).1 == GmshBuild {
            region_of: region_of@,
            regions: crate::mesh::region_views(regions@),
            cells: cell_views(cells@),
        });
        let ns = match renumber_exec(&rank, &ks, &e.nodes, e.line) {
            Ok(v) => v,
            Err(err) => {
                return Err(err);
            },
        };
        let cell = match region {
            Some(r) => Cell::new(e.kind, ns).with_region(r),
            None => Cell::new(e.kind, ns),
        };
        let ghost before_cells = cells@;
        cells.push(cell);
        assert(cell_views(cells@) =~= cell_views(before_cells).push(cell@));
        k += 1;
    }
    assert(es.take(elements@.len() as int) =~= es);
    proof {
        crate::mesh::lemma_points_all_sized(points@, 3);
        crate::mesh::lemma_cell_views_error(cells@, points@.len(), regions@);
        crate::mesh::lemma_region_ids_error(regions@);
        assert(region_ids(regions@) =~= crate::mesh::region_views(regions@).map_values(
            |r: RegionView| r.0,
        ));
    }
    match MeshTopology::with_regions(3, points, cells, regions) {
        Ok(t) => Ok(t),
        Err(e) => Err(FileIoError::Mesh(e)),
    }
}

/// Every cell is of dimension two or less.
pub open spec fn cells_in_plane(cells: Seq<CellView>) -> bool {
    forall|i: int| 0 <= i < cells.len() ==> (#[trigger] cells[i]).kind.dimension_of().dim() <= 2
}

/// A mesh read from Gmsh text, three coordinates per node, before it is
/// known whether it lies in a plane.
#[derive(Debug)]
pub struct GmshMesh {
    topology: MeshTopology,
}

impl GmshMesh {
    #[verifier::type_invariant]
    spec fn three_dimensional(self) -> bool {
        self.topology.spec_dimension() == 3
    }

    /// The mesh.
    pub closed spec fn spec_topology(&self) -> MeshTopology {
        self.topology
    }

    /// The mesh, three coordinates per node.
    pub fn topology(&self) -> (t: &MeshTopology)
        ensures
            *t == self.spec_topology(),
            t.spec_dimension() == 3,
    {
        proof {
            use_type_invariant(self);
        }
        &self.topology
    }

    /// The third coordinate of each node, in node order.
    pub fn z_coordinates(&self) -> (r: Vec<Decimal>)
        ensures
            r@.len() == self.spec_topology().spec_points().len(),
            forall|i: int|
                0 <= i < r@.len() ==> (#[trigger] r@[i])@ == self.spec_topology().spec_points()[i].coords@[2]@,
    {
        proof {
            use_type_invariant(self);
        }
        let points = self.topology.points();
        let mut r: Vec<Decimal> = Vec::new();
        let mut i: usize = 0;
        while i < points.len()
            invariant
                i <= points@.len(),
                points@ == self.spec_topology().spec_points(),
                crate::mesh::points_error(points@, 3) is None,
                r@.len() == i,
                forall|j: int| 0 <= j < i ==> (#[trigger] r@[j])@ == points@[j].coords@[2]@,
            decreases points@.len() - i,
        {
            proof {
                crate::mesh::lemma_points_dimension(points@, 3, i as int);
            }
            r.push(points[i].coords[2].copy());
            i += 1;
        }
        r
    }

    /// The mesh as a planar one when its nodes lie in the plane `z = 0`
    /// (`nodes_in_plane`, which the caller decides) and its cells are all of
    /// dimension two or less; as a three-dimensional one otherwise.
    pub fn into_imported(self, nodes_in_plane: bool) -> (r: ImportedMesh)
        ensures
            match r {
                ImportedMesh::TwoD(t) => nodes_in_plane && cells_in_plane(
                    cell_views(self.spec_topology().spec_cells()),
                ) && t.spec_dimension() == 2 && crate::mesh::pointd_views(t.spec_points())
                    == crate::mesh::pointd_views(self.spec_topology().spec_points()).map_values(
                    |c: Seq<Seq<char>>| c.take(2),
                ) && t.spec_cells() == self.spec_topology().spec_cells() && t.spec_regions()
                    == self.spec_topology().spec_regions(),
                ImportedMesh::ThreeD(t) => !(nodes_in_plane && cells_in_plane(
                    cell_views(self.spec_topology().spec_cells()),
                )) && t == self.spec_topology(),
            },
    {
        proof {
            use_type_invariant(&self);
        }
        let ghost cv = cell_views(self.topology.spec_cells());
        let flat_cells = {
            let cells = self.topology.cells();
            let mut ok = true;
            let mut i: usize = 0;
            while i < cells.len()
                invariant
                    i <= cells@.len(),
                    cv == cell_views(cells@),
                    ok == (forall|j: int| 0 <= j < i ==> (#[trigger] cv[j]).kind.dimension_of().dim() <= 2),
                decreases cells@.len() - i,
            {
                let d = cells[i].kind.entity_dimension().spatial_dimension();
                if d > 2 {
                    assert(cv[i as int].kind.dimension_of().dim() > 2);
                    ok = false;
                }
                i += 1;
            }
            ok
        };
        if nodes_in_plane && flat_cells {
            ImportedMesh::TwoD(self.topology.planar_projection())
        } else {
            ImportedMesh::ThreeD(self.topology)
        }
    }
}

/// A mesh read from Gmsh text: planar (two coordinates per node) or not.
#[derive(Debug, PartialEq)]
pub enum ImportedMesh {
    TwoD(MeshTopology),
    ThreeD(MeshTopology),
}

impl ImportedMesh {
    /// The number of coordinates per node.
    pub fn dimension(&self) -> (d: usize)
        ensures
            d == (if self is TwoD { 2usize } else { 3usize }),
    {
        match self {
            ImportedMesh::TwoD(_) => 2,
            ImportedMesh::ThreeD(_) => 3,
        }
    }

    /// The number of regions of the mesh.
    pub fn region_count(&self) -> (n: usize)
        ensures
            n == (match self {
                ImportedMesh::TwoD(t) => t.spec_regions().len(),
                ImportedMesh::ThreeD(t) => t.spec_regions().len(),
            }),
    {
        match self {
            ImportedMesh::TwoD(t) => t.regions().len(),
            ImportedMesh::ThreeD(t) => t.regions().len(),
        }
    }
}

/// Reads a Gmsh mesh in the ASCII 2.x format.
pub fn parse_gmsh_str(input: &str) -> (r: Result<GmshMesh, FileIoError>)
    requires
        input@.len() < usize::MAX,
    ensures
        match r {
            Ok(g) => gmsh_mesh(input@) matches Ok((pts, cells, regions)) && crate::mesh::pointd_views(
                g.spec_topology().spec_points(),
            ) == pts.map_values(|c: CoordsView| coords_seq(c)) && cell_views(
                g.spec_topology().spec_cells(),
            ) == cells && crate::mesh::region_views(g.spec_topology().spec_regions()) == regions,
            Err(e) => gmsh_mesh(input@) == Err::<
                (Seq<CoordsView>, Seq<CellView>, Seq<RegionView>),
                IoFault,
            >(e@),
        },
{
    let (names, nodes, elements) = read_sections(input)?;
    let topology = build_topology(&names, &nodes, &elements)?;
    Ok(GmshMesh { topology })
}

/// Gmsh's element types 1 to 5 are the first-order line, triangle,
/// quadrilateral, tetrahedron and hexahedron, in that order; no other type
/// is read.
pub proof fn law_gmsh_types_are_first_order_shapes(t: usize)
    ensures
        (gmsh_kind(t) is Some) == (1 <= t <= 5),
        gmsh_kind(t) matches Some(k) ==> (!k.is_quadratic() && k.shape_rank() + 1 == t),
{
}

} // verus!
