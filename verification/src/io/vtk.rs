//! The parts of a legacy VTK file that do not hold real numbers: the cell
//! sections, the cell type codes, field names, and the check that each
//! field has a value per point.
use vstd::prelude::*;

use crate::io::{FileIoError, IoFault};
use crate::mesh::{Cell, ElementKind};
use crate::numbers::{decimal_text, usize_text};
use crate::text::{append_chars, append_str, chars_of, string_from};

verus! {

/// VTK's code for a cell kind.
pub open spec fn vtk_code(kind: ElementKind) -> usize {
    match kind {
        ElementKind::Line2 => 3,
        ElementKind::Line3 => 21,
        ElementKind::Tri3 => 5,
        ElementKind::Tri6 => 22,
        ElementKind::Quad4 => 9,
        ElementKind::Quad8 => 23,
        ElementKind::Tet4 => 10,
        ElementKind::Tet10 => 24,
        ElementKind::Hex8 => 12,
        ElementKind::Hex20 => 25,
    }
}

/// VTK's code for a cell kind.
pub fn vtk_cell_type(kind: ElementKind) -> (t: usize)
    ensures
        t == vtk_code(kind),
{
    match kind {
        ElementKind::Line2 => 3,
        ElementKind::Line3 => 21,
        ElementKind::Tri3 => 5,
        ElementKind::Tri6 => 22,
        ElementKind::Quad4 => 9,
        ElementKind::Quad8 => 23,
        ElementKind::Tet4 => 10,
        ElementKind::Tet10 => 24,
        ElementKind::Hex8 => 12,
        ElementKind::Hex20 => 25,
    }
}

/// A character VTK accepts in a name: an ASCII letter or digit, or `_`.
pub open spec fn vtk_name_char(c: char) -> bool {
    ('a' <= c && c <= 'z') || ('A' <= c && c <= 'Z') || ('0' <= c && c <= '9') || c == '_'
}

/// A field name as VTK accepts it: other characters replaced by `_`, and
/// `field` for an empty name.
pub open spec fn vtk_name(name: Seq<char>) -> Seq<char> {
    if name.len() == 0 {
        "field"@
    } else {
        name.map_values(|c: char| if vtk_name_char(c) { c } else { '_' })
    }
}

/// A sanitized name is never empty, holds only characters VTK accepts,
/// and sanitizing it again leaves it as it is.
pub proof fn lemma_vtk_name_is_stable(name: Seq<char>)
    ensures
        vtk_name(name).len() > 0,
        forall|i: int| 0 <= i < vtk_name(name).len() ==> vtk_name_char(#[trigger] vtk_name(name)[i]),
        vtk_name(vtk_name(name)) == vtk_name(name),
{
    reveal_strlit("field");
    let v = vtk_name(name);
    assert forall|i: int| 0 <= i < v.len() implies vtk_name_char(#[trigger] v[i]) by {
        if name.len() == 0 {
            assert(v == "field"@);
        }
    }
    assert(vtk_name(v) =~= v);
}

/// A field name as VTK accepts it.
pub fn sanitize_vtk_name(name: &str) -> (r: String)
    ensures
        r@ == vtk_name(name@),
{
    let c = chars_of(name);
    if c.len() == 0 {
        let f = chars_of("field");
        return string_from(f.as_slice());
    }
    let mut out: Vec<char> = Vec::new();
    let mut i: usize = 0;
    while i < c.len()
        invariant
            i <= c@.len(),
            c@ == name@,
            out@ == c@.take(i as int).map_values(|x: char| if vtk_name_char(x) { x } else { '_' }),
        decreases c@.len() - i,
    {
        let x = c[i];
        let ok = ('a' <= x && x <= 'z') || ('A' <= x && x <= 'Z') || ('0' <= x && x <= '9') || x
            == '_';
        let y = if ok {
            x
        } else {
            '_'
        };
        out.push(y);
        assert(c@.take(i + 1).map_values(|x: char| if vtk_name_char(x) { x } else { '_' })
            =~= c@.take(i as int).map_values(|x: char| if vtk_name_char(x) { x } else { '_' }).push(
            y,
        ));
        i += 1;
    }
    assert(c@.take(c@.len() as int) =~= c@);
    string_from(out.as_slice())
}

/// The first field, in order, whose number of values is not the number of
/// points.
pub open spec fn field_length_fault(fields: Seq<(Seq<char>, usize)>, points: usize) -> Option<
    IoFault,
>
    decreases fields.len(),
{
    if fields.len() == 0 {
        None
    } else {
        match field_length_fault(fields.drop_last(), points) {
            Some(e) => Some(e),
            None => if fields.last().1 != points {
                Some(
                    IoFault::VtkFieldLengthMismatch {
                        name: fields.last().0,
                        expected: points,
                        actual: fields.last().1,
                    },
                )
            } else {
                None
            },
        }
    }
}

/// Checks that each field (its name and number of values) has a value per
/// point.
pub fn check_field_lengths(fields: &Vec<(String, usize)>, points: usize) -> (r: Result<
    (),
    FileIoError,
>)
    ensures
        match r {
            Ok(()) => field_length_fault(
                fields@.map_values(|f: (String, usize)| (f.0@, f.1)),
                points,
            ) is None,
            Err(e) => field_length_fault(
                fields@.map_values(|f: (String, usize)| (f.0@, f.1)),
                points,
            ) == Some(e@),
        },
{
    let ghost fv = fields@.map_values(|f: (String, usize)| (f.0@, f.1));
    let mut i: usize = 0;
    assert(fv.take(0) =~= Seq::<(Seq<char>, usize)>::empty());
    while i < fields.len()
        invariant
            i <= fields@.len(),
            fv == fields@.map_values(|f: (String, usize)| (f.0@, f.1)),
            field_length_fault(fv.take(i as int), points) is None,
        decreases fields@.len() - i,
    {
        assert(fv.take(i + 1).drop_last() =~= fv.take(i as int));
        if fields[i].1 != points {
            proof {
                lemma_field_fault_prefix(fv, points, i + 1);
            }
            return Err(
                FileIoError::VtkFieldLengthMismatch {
                    name: fields[i].0.clone(),
                    expected: points,
                    actual: fields[i].1,
                },
            );
        }
        i += 1;
    }
    assert(fv.take(fields@.len() as int) =~= fv);
    Ok(())
}

proof fn lemma_field_fault_prefix(fields: Seq<(Seq<char>, usize)>, points: usize, n: int)
    requires
        0 <= n <= fields.len(),
        field_length_fault(fields.take(n), points) is Some,
    ensures
        field_length_fault(fields, points) == field_length_fault(fields.take(n), points),
    decreases fields.len(),
{
    if n < fields.len() {
        assert(fields.drop_last().take(n) =~= fields.take(n));
        lemma_field_fault_prefix(fields.drop_last(), points, n);
    } else {
        assert(fields.take(n) =~= fields);
    }
}

/// The number of integers the `CELLS` section lists: each cell's node
/// count and its nodes.
pub open spec fn cells_size(cells: Seq<Cell>) -> int
    decreases cells.len(),
{
    if cells.len() == 0 {
        0
    } else {
        cells_size(cells.drop_last()) + 1 + cells.last().nodes@.len()
    }
}

/// ` n` for each node.
pub open spec fn node_list(nodes: Seq<usize>) -> Seq<char>
    decreases nodes.len(),
{
    if nodes.len() == 0 {
        seq![]
    } else {
        node_list(nodes.drop_last()) + " "@ + decimal_text(nodes.last() as nat)
    }
}

/// The rows of the `CELLS` section: node count, then the nodes.
pub open spec fn cell_rows(cells: Seq<Cell>) -> Seq<char>
    decreases cells.len(),
{
    if cells.len() == 0 {
        seq![]
    } else {
        let c = cells.last();
        cell_rows(cells.drop_last()) + decimal_text(c.nodes@.len()) + node_list(c.nodes@) + "\n"@
    }
}

/// The rows of the `CELL_TYPES` section.
pub open spec fn type_rows(cells: Seq<Cell>) -> Seq<char>
    decreases cells.len(),
{
    if cells.len() == 0 {
        seq![]
    } else {
        type_rows(cells.drop_last()) + decimal_text(vtk_code(cells.last().kind) as nat) + "\n"@
    }
}

/// The `CELLS` and `CELL_TYPES` sections of a legacy VTK file.
pub open spec fn vtk_cell_sections(cells: Seq<Cell>) -> Seq<char> {
    "CELLS "@ + decimal_text(cells.len()) + " "@ + decimal_text(cells_size(cells) as nat) + "\n"@
        + cell_rows(cells) + "CELL_TYPES "@ + decimal_text(cells.len()) + "\n"@ + type_rows(cells)
}

proof fn lemma_cells_size_grows(cells: Seq<Cell>, k: int)
    requires
        0 <= k <= cells.len(),
    ensures
        cells_size(cells.take(k)) <= cells_size(cells),
        cells_size(cells) >= 0,
    decreases cells.len(),
{
    if cells.len() > 0 {
        if k < cells.len() {
            assert(cells.drop_last().take(k) =~= cells.take(k));
            lemma_cells_size_grows(cells.drop_last(), k);
        } else {
            assert(cells.take(k) =~= cells);
            lemma_cells_size_grows(cells.drop_last(), cells.len() - 1);
        }
    }
}

/// The `CELLS` and `CELL_TYPES` sections of a legacy VTK file for the
/// cells, when their size count fits in a `usize`.
pub fn format_vtk_cells(cells: &Vec<Cell>) -> (r: String)
    requires
        cells_size(cells@) <= usize::MAX,
    ensures
        r@ == vtk_cell_sections(cells@),
{
    let mut size: usize = 0;
    let mut i: usize = 0;
    assert(cells@.take(0) =~= Seq::<Cell>::empty());
    while i < cells.len()
        invariant
            i <= cells@.len(),
            cells_size(cells@) <= usize::MAX,
            size == cells_size(cells@.take(i as int)),
        decreases cells@.len() - i,
    {
        assert(cells@.take(i + 1).drop_last() =~= cells@.take(i as int));
        proof {
            lemma_cells_size_grows(cells@, i + 1);
        }
        size = size + 1 + cells[i].nodes.len();
        i += 1;
    }
    assert(cells@.take(cells@.len() as int) =~= cells@);
    let mut out = String::new();
    append_str(&mut out, "CELLS ");
    append_chars(&mut out, usize_text(cells.len()).as_slice());
    append_str(&mut out, " ");
    append_chars(&mut out, usize_text(size).as_slice());
    append_str(&mut out, "\n");
    let ghost head = out@;
    let mut k: usize = 0;
    while k < cells.len()
        invariant
            k <= cells@.len(),
            out@ == head + cell_rows(cells@.take(k as int)),
        decreases cells@.len() - k,
    {
        assert(cells@.take(k + 1).drop_last() =~= cells@.take(k as int));
        let c = &cells[k];
        let ghost before = out@;
        append_chars(&mut out, usize_text(c.nodes.len()).as_slice());
        let ghost mid = out@;
        let mut j: usize = 0;
        assert(c.nodes@.take(0) =~= Seq::<usize>::empty());
        while j < c.nodes.len()
            invariant
                j <= c.nodes@.len(),
                out@ == mid + node_list(c.nodes@.take(j as int)),
            decreases c.nodes@.len() - j,
        {
            assert(c.nodes@.take(j + 1).drop_last() =~= c.nodes@.take(j as int));
            append_str(&mut out, " ");
            append_chars(&mut out, usize_text(c.nodes[j]).as_slice());
            assert(out@ =~= mid + node_list(c.nodes@.take(j + 1)));
            j += 1;
        }
        assert(c.nodes@.take(c.nodes@.len() as int) =~= c.nodes@);
        append_str(&mut out, "\n");
        assert(out@ =~= head + cell_rows(cells@.take(k + 1)));
        k += 1;
    }
    assert(cells@.take(cells@.len() as int) =~= cells@);
    let ghost rows_done = out@;
    append_str(&mut out, "CELL_TYPES ");
    append_chars(&mut out, usize_text(cells.len()).as_slice());
    append_str(&mut out, "\n");
    let ghost head2 = out@;
    let mut k: usize = 0;
    while k < cells.len()
        invariant
            k <= cells@.len(),
            out@ == head2 + type_rows(cells@.take(k as int)),
        decreases cells@.len() - k,
    {
        assert(cells@.take(k + 1).drop_last() =~= cells@.take(k as int));
        append_chars(&mut out, usize_text(vtk_cell_type(cells[k].kind)).as_slice());
        append_str(&mut out, "\n");
        assert(out@ =~= head2 + type_rows(cells@.take(k + 1)));
        k += 1;
    }
    assert(out@ =~= vtk_cell_sections(cells@));
    out
}

/// VTK's codes of the first-order line, triangle, quadrilateral,
/// tetrahedron and hexahedron.
pub open spec fn first_order_vtk_codes() -> Seq<nat> {
    seq![3nat, 5, 9, 10, 12]
}

/// A kind's VTK code follows from its shape and order: the first-order
/// shapes have VTK's codes 3, 5, 9, 10 and 12 (line, triangle,
/// quadrilateral, tetrahedron, hexahedron), and the quadratic ones the
/// codes from 21 on in the same order; so different kinds get different
/// codes.
pub proof fn law_vtk_code_by_shape(k: ElementKind, other: ElementKind)
    ensures
        vtk_code(k) == (if k.is_quadratic() {
            21 + k.shape_rank() as int
        } else {
            first_order_vtk_codes()[k.shape_rank() as int] as int
        }),
        k != other ==> vtk_code(k) != vtk_code(other),
{
}

} // verus!
