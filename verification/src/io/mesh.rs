//! The plain mesh format: a `nodes` section of `<id> <x> <y>` rows and a
//! `triangles` section of `<id> <a> <b> <c>` rows, ids running from zero.
use std::collections::BTreeMap;
use vstd::prelude::*;

use crate::io::ids::{ascending_ids, find_gap, first_gap, lemma_no_gap, sorted_keys};
use crate::io::{
    comments_and_blank_lines_edited, data_lines, data_lines_of, decimal_field,
    law_blank_line_keeps_row_tokens, law_edits_keep_row_tokens,
    law_comment_keeps_data_lines, line_content, parse_decimal, parse_usize, row_tokens, usize_field,
    DataLine, FileIoError, IoFault,
};
use crate::mesh::{are_triangle_cells, triangles_error, Mesh, Point2, Tri3};
use crate::text::{char_views, is_literal, string_from, strip_cr};

verus! {

broadcast use {vstd::std_specs::btree::group_btree_axioms, vstd::laws_cmp::group_laws_cmp};

/// The section a row of a mesh file belongs to.
#[derive(Clone, Copy, Debug, PartialEq, Eq, Structural)]
pub enum MeshSection {
    Nodes,
    Triangles,
}

/// What the rows read so far hold: the current section, the points by id
/// (as the texts of their coordinates) and the triangles by id.
pub struct MeshRows {
    pub section: Option<MeshSection>,
    pub nodes: Map<usize, (Seq<char>, Seq<char>)>,
    pub triangles: Map<usize, Tri3>,
}

/// A node row: `<id> <x> <y>`.
pub open spec fn node_row(line: usize, t: Seq<Seq<char>>) -> Result<
    (usize, (Seq<char>, Seq<char>)),
    IoFault,
> {
    if t.len() != 3 {
        Err(IoFault::InvalidLine { line, expected: "node row: <id> <x> <y>"@ })
    } else {
        match usize_field(line, t[0]) {
            Err(e) => Err(e),
            Ok(id) => match decimal_field(line, t[1]) {
                Err(e) => Err(e),
                Ok(x) => match decimal_field(line, t[2]) {
                    Err(e) => Err(e),
                    Ok(y) => Ok((id, (x, y))),
                },
            },
        }
    }
}

/// A triangle row: `<id> <a> <b> <c>`.
pub open spec fn triangle_row(line: usize, t: Seq<Seq<char>>) -> Result<(usize, Tri3), IoFault> {
    if t.len() != 4 {
        Err(
            IoFault::InvalidLine {
                line,
                expected: "triangle row: <id> <node_a> <node_b> <node_c>"@,
            },
        )
    } else {
        match usize_field(line, t[0]) {
            Err(e) => Err(e),
            Ok(id) => match usize_field(line, t[1]) {
                Err(e) => Err(e),
                Ok(a) => match usize_field(line, t[2]) {
                    Err(e) => Err(e),
                    Ok(b) => match usize_field(line, t[3]) {
                        Err(e) => Err(e),
                        Ok(c) => Ok((id, Tri3 { nodes: [a, b, c] })),
                    },
                },
            },
        }
    }
}

/// How one row changes what has been read.
pub open spec fn mesh_row_step(st: MeshRows, line: usize, t: Seq<Seq<char>>) -> Result<
    MeshRows,
    IoFault,
> {
    if t.len() == 1 && t[0] == "nodes"@ {
        Ok(MeshRows { section: Some(MeshSection::Nodes), ..st })
    } else if t.len() == 1 && t[0] == "triangles"@ {
        Ok(MeshRows { section: Some(MeshSection::Triangles), ..st })
    } else if t.len() == 1 && st.section is None {
        Err(IoFault::UnknownSection { line, section: t[0] })
    } else {
        match st.section {
            Some(MeshSection::Nodes) => match node_row(line, t) {
                Err(e) => Err(e),
                Ok((id, p)) => if st.nodes.contains_key(id) {
                    Err(IoFault::DuplicateId { line, id })
                } else {
                    Ok(MeshRows { nodes: st.nodes.insert(id, p), ..st })
                },
            },
            Some(MeshSection::Triangles) => match triangle_row(line, t) {
                Err(e) => Err(e),
                Ok((id, tri)) => if st.triangles.contains_key(id) {
                    Err(IoFault::DuplicateId { line, id })
                } else {
                    Ok(MeshRows { triangles: st.triangles.insert(id, tri), ..st })
                },
            },
            None => Err(IoFault::InvalidLine { line, expected: "a section header"@ }),
        }
    }
}

/// What the rows give, read in order, stopping at the first error.
pub open spec fn mesh_rows(rows: Seq<(usize, Seq<Seq<char>>)>) -> Result<MeshRows, IoFault>
    decreases rows.len(),
{
    if rows.len() == 0 {
        Ok(MeshRows { section: None, nodes: Map::empty(), triangles: Map::empty() })
    } else {
        match mesh_rows(rows.drop_last()) {
            Err(e) => Err(e),
            Ok(st) => mesh_row_step(st, rows.last().0, rows.last().1),
        }
    }
}

/// An error among the first `n` rows is the error of all of them.
proof fn lemma_mesh_rows_stop(rows: Seq<(usize, Seq<Seq<char>>)>, n: int)
    requires
        0 <= n <= rows.len(),
    ensures
        mesh_rows(rows.take(n)) is Err ==> mesh_rows(rows) == mesh_rows(rows.take(n)),
    decreases rows.len(),
{
    if n < rows.len() {
        assert(rows.drop_last().take(n) =~= rows.take(n));
        lemma_mesh_rows_stop(rows.drop_last(), n);
    } else {
        assert(rows.take(n) =~= rows);
    }
}

/// The values of a map whose keys run from zero without gap, in key order.
pub open spec fn values_in_order<V>(m: Map<usize, V>) -> Seq<V> {
    Seq::new(m.dom().len(), |i: int| m[i as usize])
}

/// The points and triangles a mesh file describes, or why it describes none:
/// both sections must be there, ids must run from zero without gap, and the
/// triangles must refer to existing nodes, none twice.
pub open spec fn mesh_file(s: Seq<char>) -> Result<
    (Seq<(Seq<char>, Seq<char>)>, Seq<Tri3>),
    IoFault,
> {
    match mesh_rows(data_lines_of(s)) {
        Err(e) => Err(e),
        Ok(st) => if st.nodes.dom().len() == 0 {
            Err(IoFault::MissingSection { section: "nodes"@ })
        } else if st.triangles.dom().len() == 0 {
            Err(IoFault::MissingSection { section: "triangles"@ })
        } else if let Some((e, f)) = first_gap(ascending_ids(st.nodes.dom())) {
            Err(IoFault::NonContiguousId { expected: e, found: f })
        } else if let Some((e, f)) = first_gap(ascending_ids(st.triangles.dom())) {
            Err(IoFault::NonContiguousId { expected: e, found: f })
        } else {
            let points = values_in_order(st.nodes);
            let ts = values_in_order(st.triangles);
            match triangles_error(ts, points.len()) {
                Some(e) => Err(IoFault::Mesh(e)),
                None => Ok((points, ts)),
            }
        },
    }
}

/// The texts of the coordinates of points.
pub open spec fn point_views(ps: Seq<Point2>) -> Seq<(Seq<char>, Seq<char>)> {
    ps.map_values(|p: Point2| (p.x@, p.y@))
}

fn parse_node_line(line: usize, tokens: &Vec<Vec<char>>) -> (r: Result<
    (usize, Point2),
    FileIoError,
>)
    ensures
        match r {
            Ok((id, p)) => node_row(line, char_views(tokens@)) == Ok::<
                (usize, (Seq<char>, Seq<char>)),
                IoFault,
            >((id, (p.x@, p.y@))),
            Err(e) => node_row(line, char_views(tokens@)) == Err::<
                (usize, (Seq<char>, Seq<char>)),
                IoFault,
            >(e@),
        },
{
    if tokens.len() != 3 {
        return Err(FileIoError::InvalidLine { line, expected: "node row: <id> <x> <y>" });
    }
    let id = parse_usize(line, tokens[0].as_slice())?;
    let x = parse_decimal(line, tokens[1].as_slice())?;
    let y = parse_decimal(line, tokens[2].as_slice())?;
    Ok((id, Point2::new(x, y)))
}

fn parse_triangle_line(line: usize, tokens: &Vec<Vec<char>>) -> (r: Result<
    (usize, Tri3),
    FileIoError,
>)
    ensures
        match r {
            Ok(v) => triangle_row(line, char_views(tokens@)) == Ok::<(usize, Tri3), IoFault>(v),
            Err(e) => triangle_row(line, char_views(tokens@)) == Err::<(usize, Tri3), IoFault>(e@),
        },
{
    if tokens.len() != 4 {
        return Err(
            FileIoError::InvalidLine {
                line,
                expected: "triangle row: <id> <node_a> <node_b> <node_c>",
            },
        );
    }
    let id = parse_usize(line, tokens[0].as_slice())?;
    let a = parse_usize(line, tokens[1].as_slice())?;
    let b = parse_usize(line, tokens[2].as_slice())?;
    let c = parse_usize(line, tokens[3].as_slice())?;
    Ok((id, Tri3::new([a, b, c])))
}

/// The points of a map whose keys run from zero without gap, in key order.
fn points_in_order(m: &BTreeMap<usize, Point2>) -> (r: Result<Vec<Point2>, FileIoError>)
    ensures
        match r {
            Ok(ps) => first_gap(ascending_ids(m@.dom())) is None && point_views(ps@)
                == values_in_order(m@.map_values(|p: Point2| (p.x@, p.y@))),
            Err(e) => first_gap(ascending_ids(m@.dom())) matches Some((x, f)) && e@
                == IoFault::NonContiguousId { expected: x, found: f },
        },
{
    let keys = sorted_keys(m);
    if let Some((expected, found)) = find_gap(&keys) {
        return Err(FileIoError::NonContiguousId { expected, found });
    }
    proof {
        lemma_no_gap(keys@);
    }
    let ghost views = m@.map_values(|p: Point2| (p.x@, p.y@));
    let mut r: Vec<Point2> = Vec::new();
    let mut i: usize = 0;
    while i < keys.len()
        invariant
            i <= keys@.len(),
            keys@.len() == m@.dom().len(),
            keys@.to_set() == m@.dom(),
            forall|j: int| 0 <= j < keys@.len() ==> keys@[j] == j,
            views == m@.map_values(|p: Point2| (p.x@, p.y@)),
            r@.len() == i,
            forall|j: int| 0 <= j < i ==> (#[trigger] r@[j]).x@ == views[j as usize].0 && r@[j].y@
                == views[j as usize].1,
        decreases keys@.len() - i,
    {
        assert(keys@.to_set().contains(keys@[i as int]));
        match m.get(&keys[i]) {
            Some(p) => {
                r.push(p.copy());
            },
            None => {
                assert(false);
            },
        }
        i += 1;
    }
    assert(views.dom() =~= m@.dom());
    assert(point_views(r@) =~= values_in_order(views));
    Ok(r)
}

/// The triangles of a map whose keys run from zero without gap, in key order.
fn triangles_in_order(m: &BTreeMap<usize, Tri3>) -> (r: Result<Vec<Tri3>, FileIoError>)
    ensures
        match r {
            Ok(ts) => first_gap(ascending_ids(m@.dom())) is None && ts@ == values_in_order(m@),
            Err(e) => first_gap(ascending_ids(m@.dom())) matches Some((x, f)) && e@
                == IoFault::NonContiguousId { expected: x, found: f },
        },
{
    let keys = sorted_keys(m);
    if let Some((expected, found)) = find_gap(&keys) {
        return Err(FileIoError::NonContiguousId { expected, found });
    }
    proof {
        lemma_no_gap(keys@);
    }
    let mut r: Vec<Tri3> = Vec::new();
    let mut i: usize = 0;
    while i < keys.len()
        invariant
            i <= keys@.len(),
            keys@.len() == m@.dom().len(),
            keys@.to_set() == m@.dom(),
            forall|j: int| 0 <= j < keys@.len() ==> keys@[j] == j,
            r@.len() == i,
            forall|j: int| 0 <= j < i ==> r@[j] == m@[j as usize],
        decreases keys@.len() - i,
    {
        assert(keys@.to_set().contains(keys@[i as int]));
        match m.get(&keys[i]) {
            Some(t) => {
                r.push(*t);
            },
            None => {
                assert(false);
            },
        }
        i += 1;
    }
    assert(r@ =~= values_in_order(m@));
    Ok(r)
}

/// Reads a mesh in the plain mesh format.
pub fn parse_mesh_str(input: &str) -> (r: Result<Mesh, FileIoError>)
    ensures
        match r {
            Ok(m) => mesh_file(input@) matches Ok((pts, ts)) && point_views(m.spec_points()) == pts
                && are_triangle_cells(m.spec_cells(), ts),
            Err(e) => mesh_file(input@) == Err::<(Seq<(Seq<char>, Seq<char>)>, Seq<Tri3>), IoFault>(
                e@,
            ),
        },
{
    let rows = data_lines(input);
    let ghost rs = data_lines_of(input@);
    let mut section: Option<MeshSection> = None;
    let mut nodes: BTreeMap<usize, Point2> = BTreeMap::new();
    let mut triangles: BTreeMap<usize, Tri3> = BTreeMap::new();
    let mut i: usize = 0;
    assert(rs.take(0) =~= Seq::<(usize, Seq<Seq<char>>)>::empty());
    assert(nodes@.map_values(|p: Point2| (p.x@, p.y@)) =~= Map::<usize, (Seq<char>, Seq<char>)>::empty());
    while i < rows.len()
        invariant
            i <= rows@.len(),
            rs == data_lines_of(input@),
            rs == crate::io::data_line_views(rows@),
            mesh_rows(rs.take(i as int)) == Ok::<MeshRows, IoFault>(
                MeshRows {
                    section,
                    nodes: nodes@.map_values(|p: Point2| (p.x@, p.y@)),
                    triangles: triangles@,
                },
            ),
        decreases rows@.len() - i,
    {
        let row: &DataLine = &rows[i];
        let line = row.line;
        let tokens = &row.tokens;
        let ghost t = char_views(tokens@);
        let ghost st = MeshRows {
            section,
            nodes: nodes@.map_values(|p: Point2| (p.x@, p.y@)),
            triangles: triangles@,
        };
        assert(rs.take(i + 1).drop_last() =~= rs.take(i as int));
        proof {
            lemma_mesh_rows_stop(rs, i + 1);
        }
        assert(rs.take(i + 1).last() == (line, t));
        assert(t.len() == tokens@.len());
        if tokens.len() == 1 && is_literal(tokens[0].as_slice(), "nodes") {
            section = Some(MeshSection::Nodes);
        } else if tokens.len() == 1 && is_literal(tokens[0].as_slice(), "triangles") {
            section = Some(MeshSection::Triangles);
        } else if tokens.len() == 1 && section.is_none() {
            return Err(
                FileIoError::UnknownSection { line, section: string_from(tokens[0].as_slice()) },
            );
        } else {
            match section {
                Some(MeshSection::Nodes) => {
                    let (id, point) = parse_node_line(line, tokens)?;
                    let ghost pv = (point.x@, point.y@);
                    let ghost before = nodes@;
                    if nodes.insert(id, point).is_some() {
                        return Err(FileIoError::DuplicateId { line, id });
                    }
                    assert(nodes@.map_values(|p: Point2| (p.x@, p.y@)) =~= before.map_values(
                        |p: Point2| (p.x@, p.y@),
                    ).insert(id, pv));
                },
                Some(MeshSection::Triangles) => {
                    let (id, tri) = parse_triangle_line(line, tokens)?;
                    if triangles.insert(id, tri).is_some() {
                        return Err(FileIoError::DuplicateId { line, id });
                    }
                },
                None => {
                    return Err(FileIoError::InvalidLine { line, expected: "a section header" });
                },
            }
        }
        i += 1;
    }
    assert(rs.take(rows@.len() as int) =~= rs);
    assert(nodes@.map_values(|p: Point2| (p.x@, p.y@)).dom() =~= nodes@.dom());
    if nodes.len() == 0 {
        return Err(FileIoError::MissingSection { section: "nodes" });
    }
    if triangles.len() == 0 {
        return Err(FileIoError::MissingSection { section: "triangles" });
    }
    assert(nodes@.map_values(|p: Point2| (p.x@, p.y@)).dom() =~= nodes@.dom());
    let points = points_in_order(&nodes)?;
    let tris = triangles_in_order(&triangles)?;
    match Mesh::new(points, tris) {
        Ok(m) => Ok(m),
        Err(e) => Err(FileIoError::Mesh(e)),
    }
}

/// A row read on one line or another leads to the same state, or fails on
/// both.
proof fn lemma_mesh_row_step_line(st: MeshRows, l1: usize, l2: usize, t: Seq<Seq<char>>)
    ensures
        (mesh_row_step(st, l1, t) is Ok) == (mesh_row_step(st, l2, t) is Ok),
        mesh_row_step(st, l1, t) is Ok ==> mesh_row_step(st, l1, t) == mesh_row_step(st, l2, t),
{
}

/// Rows with the same tokens, whatever their line numbers, lead to the same
/// state, or both fail.
proof fn lemma_mesh_rows_tokens(r1: Seq<(usize, Seq<Seq<char>>)>, r2: Seq<(usize, Seq<Seq<char>>)>)
    requires
        row_tokens(r1) == row_tokens(r2),
    ensures
        (mesh_rows(r1) is Ok) == (mesh_rows(r2) is Ok),
        mesh_rows(r1) is Ok ==> mesh_rows(r1) == mesh_rows(r2),
    decreases r1.len(),
{
    assert(r1.len() == row_tokens(r1).len());
    assert(r2.len() == row_tokens(r2).len());
    if r1.len() > 0 {
        assert(row_tokens(r1.drop_last()) =~= row_tokens(r1).drop_last());
        assert(row_tokens(r2.drop_last()) =~= row_tokens(r2).drop_last());
        lemma_mesh_rows_tokens(r1.drop_last(), r2.drop_last());
        assert(row_tokens(r1)[r1.len() - 1] == r1.last().1);
        assert(row_tokens(r2)[r2.len() - 1] == r2.last().1);
        match mesh_rows(r1.drop_last()) {
            Err(_) => {},
            Ok(st) => {
                lemma_mesh_row_step_line(st, r1.last().0, r2.last().0, r1.last().1);
            },
        }
    }
}

/// Line numbers reach a mesh file only through its errors: two texts whose
/// data rows hold the same tokens are both read, as the same mesh, or both
/// refused.
pub proof fn law_mesh_reads_row_tokens_only(s1: Seq<char>, s2: Seq<char>)
    requires
        row_tokens(data_lines_of(s1)) == row_tokens(data_lines_of(s2)),
    ensures
        (mesh_file(s1) is Ok) == (mesh_file(s2) is Ok),
        mesh_file(s1) is Ok ==> mesh_file(s1) == mesh_file(s2),
{
    lemma_mesh_rows_tokens(data_lines_of(s1), data_lines_of(s2));
}

/// A blank or comment-only line (`l`, ended by a line break) inserted at the
/// start of a line of a mesh file, or removed from it, changes neither
/// whether it is read nor the mesh read.
pub proof fn law_mesh_ignores_blank_lines(a: Seq<char>, l: Seq<char>, b: Seq<char>)
    requires
        a.len() == 0 || a.last() == '\n',
        !l.contains('\n'),
        line_content(strip_cr(l)).len() == 0,
    ensures
        (mesh_file(a + l + seq!['\n'] + b) is Ok) == (mesh_file(a + b) is Ok),
        mesh_file(a + b) is Ok ==> mesh_file(a + l + seq!['\n'] + b) == mesh_file(a + b),
{
    law_blank_line_keeps_row_tokens(a, l, b);
    law_mesh_reads_row_tokens_only(a + b, a + l + seq!['\n'] + b);
}

/// A `#` comment added to a line of a mesh file, or removed from it, changes
/// nothing that is read, line numbers of errors included.
pub proof fn law_mesh_ignores_comments(a: Seq<char>, l: Seq<char>, c: Seq<char>, b: Seq<char>)
    requires
        a.len() == 0 || a.last() == '\n',
        !l.contains('\n'),
        !l.contains('#'),
        !c.contains('\n'),
    ensures
        mesh_file(a + l + seq!['#'] + c + seq!['\n'] + b) == mesh_file(a + l + seq!['\n'] + b),
{
    law_comment_keeps_data_lines(a, l, c, b);
}

/// Any number of blank or comment-only lines, and of comments on lines,
/// added to a mesh file or removed from it, change neither whether it is
/// read nor the mesh read.
pub proof fn law_mesh_ignores_comments_and_blank_lines(s1: Seq<char>, s2: Seq<char>, n: nat)
    requires
        comments_and_blank_lines_edited(s1, s2, n),
    ensures
        (mesh_file(s1) is Ok) == (mesh_file(s2) is Ok),
        mesh_file(s1) is Ok ==> mesh_file(s1) == mesh_file(s2),
{
    law_edits_keep_row_tokens(s1, s2, n);
    law_mesh_reads_row_tokens_only(s1, s2);
}

} // verus!
