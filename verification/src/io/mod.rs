//! The text formats the toolkit reads and writes, and what can go wrong
//! while reading them.
use vstd::prelude::*;

use crate::mesh::MeshError;
use crate::numbers::{f64_literal, parse_usize_chars, usize_literal, Decimal};
use crate::text::{
    before_char, char_views, chars_before, chars_of, line_state, lines_of, split_lines,
    split_words, string_from, strip_cr, trim, trim_chars, trim_end, words,
};

pub mod abaqus;
pub mod cad;
pub mod gmsh;
pub mod ids;
pub mod mesh;
pub mod params;
pub mod project;
pub mod result_format;
pub mod vtk;

verus! {

/// Why a text could not be read as a model file.
#[derive(Debug, PartialEq)]
pub enum FileIoError {
    InvalidLine { line: usize, expected: &'static str },
    UnknownSection { line: usize, section: String },
    MissingSection { section: &'static str },
    DuplicateId { line: usize, id: usize },
    NonContiguousId { expected: usize, found: usize },
    ParseInt { line: usize, value: String },
    ParseFloat { line: usize, value: String },
    Mesh(MeshError),
    MissingParameter { name: &'static str },
    UnsupportedSource { line: usize, kind: String },
    UnsupportedSolverOption { line: usize, option: String },
    UnsupportedSolverBackend { line: usize, backend: String },
    UnsupportedPreconditioner { line: usize, preconditioner: String },
    ParseBool { line: usize, value: String },
    DuplicateParameter { line: usize, name: &'static str },
    DuplicateDirichlet { line: usize, node_id: usize },
    BoundaryNodeOutOfBounds { node_id: usize, node_count: usize },
    InvalidConductivity { value: Decimal },
    InvalidSource { value: Decimal },
    InvalidMaxIterations,
    InvalidTolerance { value: Decimal },
    UnsupportedGmshFormat { version: String },
    UnsupportedGmshElement { line: usize, element_type: usize },
    UnknownGmshNode { line: usize, node_id: usize },
    MissingGmshNodes,
    MissingGmshElements,
    VtkFieldLengthMismatch { name: String, expected: usize, actual: usize },
}

/// A `FileIoError` with its texts and numbers by their characters.
pub enum IoFault {
    InvalidLine { line: usize, expected: Seq<char> },
    UnknownSection { line: usize, section: Seq<char> },
    MissingSection { section: Seq<char> },
    DuplicateId { line: usize, id: usize },
    NonContiguousId { expected: usize, found: usize },
    ParseInt { line: usize, value: Seq<char> },
    ParseFloat { line: usize, value: Seq<char> },
    Mesh(MeshError),
    MissingParameter { name: Seq<char> },
    UnsupportedSource { line: usize, kind: Seq<char> },
    UnsupportedSolverOption { line: usize, option: Seq<char> },
    UnsupportedSolverBackend { line: usize, backend: Seq<char> },
    UnsupportedPreconditioner { line: usize, preconditioner: Seq<char> },
    ParseBool { line: usize, value: Seq<char> },
    DuplicateParameter { line: usize, name: Seq<char> },
    DuplicateDirichlet { line: usize, node_id: usize },
    BoundaryNodeOutOfBounds { node_id: usize, node_count: usize },
    InvalidConductivity { value: Seq<char> },
    InvalidSource { value: Seq<char> },
    InvalidMaxIterations,
    InvalidTolerance { value: Seq<char> },
    UnsupportedGmshFormat { version: Seq<char> },
    UnsupportedGmshElement { line: usize, element_type: usize },
    UnknownGmshNode { line: usize, node_id: usize },
    MissingGmshNodes,
    MissingGmshElements,
    VtkFieldLengthMismatch { name: Seq<char>, expected: usize, actual: usize },
}

impl View for FileIoError {
    type V = IoFault;

    open spec fn view(&self) -> IoFault {
        match self {
            FileIoError::InvalidLine { line, expected } => IoFault::InvalidLine {
                line: *line,
                expected: expected@,
            },
            FileIoError::UnknownSection { line, section } => IoFault::UnknownSection {
                line: *line,
                section: section@,
            },
            FileIoError::MissingSection { section } => IoFault::MissingSection {
                section: section@,
            },
            FileIoError::DuplicateId { line, id } => IoFault::DuplicateId { line: *line, id: *id },
            FileIoError::NonContiguousId { expected, found } => IoFault::NonContiguousId {
                expected: *expected,
                found: *found,
            },
            FileIoError::ParseInt { line, value } => IoFault::ParseInt {
                line: *line,
                value: value@,
            },
            FileIoError::ParseFloat { line, value } => IoFault::ParseFloat {
                line: *line,
                value: value@,
            },
            FileIoError::Mesh(e) => IoFault::Mesh(*e),
            FileIoError::MissingParameter { name } => IoFault::MissingParameter { name: name@ },
            FileIoError::UnsupportedSource { line, kind } => IoFault::UnsupportedSource {
                line: *line,
                kind: kind@,
            },
            FileIoError::UnsupportedSolverOption { line, option } =>
                IoFault::UnsupportedSolverOption { line: *line, option: option@ },
            FileIoError::UnsupportedSolverBackend { line, backend } =>
                IoFault::UnsupportedSolverBackend { line: *line, backend: backend@ },
            FileIoError::UnsupportedPreconditioner { line, preconditioner } =>
                IoFault::UnsupportedPreconditioner { line: *line, preconditioner: preconditioner@ },
            FileIoError::ParseBool { line, value } => IoFault::ParseBool {
                line: *line,
                value: value@,
            },
            FileIoError::DuplicateParameter { line, name } => IoFault::DuplicateParameter {
                line: *line,
                name: name@,
            },
            FileIoError::DuplicateDirichlet { line, node_id } => IoFault::DuplicateDirichlet {
                line: *line,
                node_id: *node_id,
            },
            FileIoError::BoundaryNodeOutOfBounds { node_id, node_count } =>
                IoFault::BoundaryNodeOutOfBounds { node_id: *node_id, node_count: *node_count },
            FileIoError::InvalidConductivity { value } => IoFault::InvalidConductivity {
                value: value@,
            },
            FileIoError::InvalidSource { value } => IoFault::InvalidSource { value: value@ },
            FileIoError::InvalidMaxIterations => IoFault::InvalidMaxIterations,
            FileIoError::InvalidTolerance { value } => IoFault::InvalidTolerance { value: value@ },
            FileIoError::UnsupportedGmshFormat { version } => IoFault::UnsupportedGmshFormat {
                version: version@,
            },
            FileIoError::UnsupportedGmshElement { line, element_type } =>
                IoFault::UnsupportedGmshElement { line: *line, element_type: *element_type },
            FileIoError::UnknownGmshNode { line, node_id } => IoFault::UnknownGmshNode {
                line: *line,
                node_id: *node_id,
            },
            FileIoError::MissingGmshNodes => IoFault::MissingGmshNodes,
            FileIoError::MissingGmshElements => IoFault::MissingGmshElements,
            FileIoError::VtkFieldLengthMismatch { name, expected, actual } =>
                IoFault::VtkFieldLengthMismatch {
                name: name@,
                expected: *expected,
                actual: *actual,
            },
        }
    }
}

/// A line as the readers see it: without a `#` comment and surrounding
/// white space.
pub open spec fn line_content(l: Seq<char>) -> Seq<char> {
    trim(before_char(l, '#'))
}

/// The lines with content among `ls`, each with its line number (counted
/// from one) and its whitespace-separated tokens.
pub open spec fn data_rows(ls: Seq<Seq<char>>) -> Seq<(usize, Seq<Seq<char>>)>
    decreases ls.len(),
{
    if ls.len() == 0 {
        seq![]
    } else {
        let prev = data_rows(ls.drop_last());
        let content = line_content(ls.last());
        if content.len() == 0 {
            prev
        } else {
            prev.push((ls.len() as usize, words(content)))
        }
    }
}

/// The data rows of a text.
pub open spec fn data_lines_of(s: Seq<char>) -> Seq<(usize, Seq<Seq<char>>)> {
    data_rows(lines_of(s))
}

/// A line with content: its number and its tokens.
#[derive(Debug)]
pub struct DataLine {
    pub line: usize,
    pub tokens: Vec<Vec<char>>,
}

/// Line numbers and tokens of data lines.
pub open spec fn data_line_views(v: Seq<DataLine>) -> Seq<(usize, Seq<Seq<char>>)> {
    v.map_values(|d: DataLine| (d.line, char_views(d.tokens@)))
}

/// The lines of `input` that hold something once comments (from `#`) and
/// surrounding white space are removed, numbered from one, split into
/// whitespace-separated tokens.
pub fn data_lines(input: &str) -> (r: Vec<DataLine>)
    ensures
        data_line_views(r@) == data_lines_of(input@),
{
    let chars = chars_of(input);
    let lines = split_lines(chars.as_slice());
    let ghost ls = char_views(lines@);
    let mut r: Vec<DataLine> = Vec::new();
    let mut i: usize = 0;
    assert(ls.take(0) =~= Seq::<Seq<char>>::empty());
    assert(data_line_views(r@) =~= Seq::<(usize, Seq<Seq<char>>)>::empty());
    while i < lines.len()
        invariant
            i <= lines@.len(),
            ls == char_views(lines@),
            ls == lines_of(input@),
            data_line_views(r@) == data_rows(ls.take(i as int)),
        decreases lines@.len() - i,
    {
        let stripped = chars_before(lines[i].as_slice(), '#');
        let content = trim_chars(stripped.as_slice());
        assert(ls.take(i + 1).drop_last() =~= ls.take(i as int));
        assert(ls.take(i + 1).last() == lines@[i as int]@);
        if content.len() > 0 {
            let tokens = split_words(content.as_slice());
            let ghost prev = r@;
            r.push(DataLine { line: i + 1, tokens });
            assert(data_line_views(r@) =~= data_line_views(prev).push(
                ((i + 1) as usize, char_views(tokens@)),
            ));
        }
        i += 1;
    }
    assert(ls.take(lines@.len() as int) =~= ls);
    r
}

/// What reading `value` as a `usize` on line `line` gives.
pub open spec fn usize_field(line: usize, value: Seq<char>) -> Result<usize, IoFault> {
    match usize_literal(value) {
        Some(n) => Ok(n),
        None => Err(IoFault::ParseInt { line, value }),
    }
}

/// What reading `value` as a real number on line `line` gives.
pub open spec fn decimal_field(line: usize, value: Seq<char>) -> Result<Seq<char>, IoFault> {
    if f64_literal(value) {
        Ok(value)
    } else {
        Err(IoFault::ParseFloat { line, value })
    }
}

/// Reads `value` as a `usize`, reporting the line when it is not one.
pub fn parse_usize(line: usize, value: &[char]) -> (r: Result<usize, FileIoError>)
    ensures
        match r {
            Ok(n) => usize_field(line, value@) == Ok::<usize, IoFault>(n),
            Err(e) => usize_field(line, value@) == Err::<usize, IoFault>(e@),
        },
{
    match parse_usize_chars(value) {
        Some(n) => Ok(n),
        None => Err(FileIoError::ParseInt { line, value: string_from(value) }),
    }
}

/// Reads `value` as a real number, reporting the line when it is not one.
pub fn parse_decimal(line: usize, value: &[char]) -> (r: Result<Decimal, FileIoError>)
    ensures
        match r {
            Ok(d) => decimal_field(line, value@) == Ok::<Seq<char>, IoFault>(d@),
            Err(e) => decimal_field(line, value@) == Err::<Seq<char>, IoFault>(e@),
        },
{
    match Decimal::parse(value) {
        Some(d) => Ok(d),
        None => Err(FileIoError::ParseFloat { line, value: string_from(value) }),
    }
}

/// The tokens of data rows, without their line numbers.
pub open spec fn row_tokens(rows: Seq<(usize, Seq<Seq<char>>)>) -> Seq<Seq<Seq<char>>> {
    rows.map_values(|r: (usize, Seq<Seq<char>>)| r.1)
}

/// Reading on after a text that ends a line starts a fresh line.
proof fn lemma_line_state_append(a: Seq<char>, x: Seq<char>)
    requires
        line_state(a).1.len() == 0,
    ensures
        line_state(a + x) == (line_state(a).0 + line_state(x).0, line_state(x).1),
    decreases x.len(),
{
    if x.len() == 0 {
        assert(a + x =~= a);
        assert(line_state(a).0 + Seq::<Seq<char>>::empty() =~= line_state(a).0);
    } else {
        lemma_line_state_append(a, x.drop_last());
        assert((a + x).drop_last() =~= a + x.drop_last());
        assert((a + x).last() == x.last());
        let p = line_state(x.drop_last());
        assert((line_state(a).0 + p.0).push(strip_cr(p.1)) =~= line_state(a).0 + p.0.push(
            strip_cr(p.1),
        ));
    }
}

/// A text without a line break is the line under construction.
proof fn lemma_line_state_one_line(l: Seq<char>)
    requires
        !l.contains('\n'),
    ensures
        line_state(l) == (Seq::<Seq<char>>::empty(), l),
    decreases l.len(),
{
    if l.len() > 0 {
        assert(!l.drop_last().contains('\n')) by {
            if l.drop_last().contains('\n') {
                let k = choose|k: int| 0 <= k < l.drop_last().len() && l.drop_last()[k] == '\n';
                assert(l[k] == '\n');
            }
        }
        lemma_line_state_one_line(l.drop_last());
        assert(l[l.len() - 1] != '\n');
        assert(l.drop_last().push(l.last()) =~= l);
    }
}

/// A line `l` ended by `\n` at the start of a line of a text is one line
/// of it, between the lines before and those after.
proof fn lemma_lines_around(a: Seq<char>, l: Seq<char>, b: Seq<char>)
    requires
        a.len() == 0 || a.last() == '\n',
        !l.contains('\n'),
    ensures
        lines_of(a + l + seq!['\n'] + b) == lines_of(a) + seq![strip_cr(l)] + lines_of(b),
        lines_of(a + b) == lines_of(a) + lines_of(b),
{
    assert(line_state(a).1.len() == 0) by {
        if a.len() > 0 {
            assert(a.drop_last().push(a.last()) =~= a);
        }
    }
    lemma_line_state_one_line(l);
    let ln = l.push('\n');
    assert(ln.drop_last() =~= l);
    assert(line_state(ln) == (seq![strip_cr(l)], Seq::<char>::empty()));
    lemma_line_state_append(ln, b);
    lemma_line_state_append(a, ln + b);
    assert(a + l + seq!['\n'] + b =~= a + (ln + b));
    lemma_line_state_append(a, b);
    let sb = line_state(b);
    assert(line_state(a).0 + (seq![strip_cr(l)] + sb.0) =~= line_state(a).0 + seq![strip_cr(l)]
        + sb.0);
    assert((line_state(a).0 + seq![strip_cr(l)] + sb.0).push(sb.1) =~= line_state(a).0 + seq![
        strip_cr(l),
    ] + sb.0.push(sb.1));
    assert((line_state(a).0 + sb.0).push(sb.1) =~= line_state(a).0 + sb.0.push(sb.1));
}

/// A line that reads as blank, inserted among others, leaves the tokens of
/// the data rows as they were (only later line numbers move).
proof fn lemma_blank_line_keeps_row_tokens(x: Seq<Seq<char>>, m: Seq<char>, y: Seq<Seq<char>>)
    requires
        line_content(m).len() == 0,
    ensures
        row_tokens(data_rows(x + seq![m] + y)) == row_tokens(data_rows(x + y)),
    decreases y.len(),
{
    if y.len() == 0 {
        assert(x + seq![m] + y =~= x.push(m));
        assert(x.push(m).drop_last() =~= x);
        assert(x + y =~= x);
    } else {
        lemma_blank_line_keeps_row_tokens(x, m, y.drop_last());
        assert((x + seq![m] + y).drop_last() =~= x + seq![m] + y.drop_last());
        assert((x + y).drop_last() =~= x + y.drop_last());
        assert((x + seq![m] + y).last() == y.last());
        assert((x + y).last() == y.last());
        let p1 = data_rows(x + seq![m] + y.drop_last());
        let p2 = data_rows(x + y.drop_last());
        let c = line_content(y.last());
        if c.len() > 0 {
            let r1 = ((x + seq![m] + y).len() as usize, words(c));
            let r2 = ((x + y).len() as usize, words(c));
            assert(row_tokens(p1.push(r1)) =~= row_tokens(p1).push(words(c)));
            assert(row_tokens(p2.push(r2)) =~= row_tokens(p2).push(words(c)));
        }
    }
}

/// A line replaced by one with the same content leaves the data rows as
/// they were.
proof fn lemma_same_content_keeps_rows(
    x: Seq<Seq<char>>,
    m1: Seq<char>,
    m2: Seq<char>,
    y: Seq<Seq<char>>,
)
    requires
        line_content(m1) == line_content(m2),
    ensures
        data_rows(x + seq![m1] + y) == data_rows(x + seq![m2] + y),
    decreases y.len(),
{
    if y.len() == 0 {
        assert(x + seq![m1] + y =~= x.push(m1));
        assert(x + seq![m2] + y =~= x.push(m2));
        assert(x.push(m1).drop_last() =~= x);
        assert(x.push(m2).drop_last() =~= x);
    } else {
        lemma_same_content_keeps_rows(x, m1, m2, y.drop_last());
        assert((x + seq![m1] + y).drop_last() =~= x + seq![m1] + y.drop_last());
        assert((x + seq![m2] + y).drop_last() =~= x + seq![m2] + y.drop_last());
    }
}

/// The part before the first `#` of a line without one is the line.
proof fn lemma_before_hash(l: Seq<char>, c: Seq<char>)
    requires
        !l.contains('#'),
    ensures
        before_char(l, '#') == l,
        before_char(l + seq!['#'] + c, '#') == l,
    decreases l.len(),
{
    if l.len() > 0 {
        assert(!l.drop_first().contains('#')) by {
            if l.drop_first().contains('#') {
                let k = choose|k: int| 0 <= k < l.drop_first().len() && l.drop_first()[k] == '#';
                assert(l[k + 1] == '#');
            }
        }
        lemma_before_hash(l.drop_first(), c);
        assert(l[0] != '#');
        assert((l + seq!['#'] + c).drop_first() =~= l.drop_first() + seq!['#'] + c);
        assert(seq![l[0]] + l.drop_first() =~= l);
    } else {
        assert(l + seq!['#'] + c =~= seq!['#'] + c);
    }
}

/// A `#` comment added to a line leaves what the line reads as.
proof fn lemma_comment_keeps_content(l: Seq<char>, c: Seq<char>)
    requires
        !l.contains('#'),
    ensures
        line_content(strip_cr(l + seq!['#'] + c)) == line_content(strip_cr(l)),
{
    lemma_before_hash(l, c);
    let w = l + seq!['#'] + c;
    if c.len() > 0 && c.last() == '\r' {
        assert(strip_cr(w) =~= l + seq!['#'] + c.drop_last());
        lemma_before_hash(l, c.drop_last());
    } else {
        assert(strip_cr(w) == w);
    }
    if l.len() > 0 && l.last() == '\r' {
        assert(!l.drop_last().contains('#')) by {
            if l.drop_last().contains('#') {
                let k = choose|k: int| 0 <= k < l.drop_last().len() && l.drop_last()[k] == '#';
                assert(l[k] == '#');
            }
        }
        lemma_before_hash(l.drop_last(), c);
        assert(crate::text::is_space('\r'));
        assert(trim_end(l) == trim_end(l.drop_last()));
    }
}

/// A blank or comment-only line inserted at the start of a line of a text,
/// or removed from it, leaves the tokens of its data rows as they were.
pub proof fn law_blank_line_keeps_row_tokens(a: Seq<char>, l: Seq<char>, b: Seq<char>)
    requires
        a.len() == 0 || a.last() == '\n',
        !l.contains('\n'),
        line_content(strip_cr(l)).len() == 0,
    ensures
        row_tokens(data_lines_of(a + l + seq!['\n'] + b)) == row_tokens(data_lines_of(a + b)),
{
    lemma_lines_around(a, l, b);
    lemma_blank_line_keeps_row_tokens(lines_of(a), strip_cr(l), lines_of(b));
}

/// A `#` comment added to a line of a text, or removed from it, leaves its
/// data rows as they were, line numbers included.
pub proof fn law_comment_keeps_data_lines(a: Seq<char>, l: Seq<char>, c: Seq<char>, b: Seq<char>)
    requires
        a.len() == 0 || a.last() == '\n',
        !l.contains('\n'),
        !l.contains('#'),
        !c.contains('\n'),
    ensures
        data_lines_of(a + l + seq!['#'] + c + seq!['\n'] + b) == data_lines_of(
            a + l + seq!['\n'] + b,
        ),
{
    let w = l + seq!['#'] + c;
    assert(!w.contains('\n')) by {
        if w.contains('\n') {
            let k = choose|k: int| 0 <= k < w.len() && w[k] == '\n';
            if k < l.len() {
                assert(l[k] == '\n');
            } else if k > l.len() {
                assert(c[k - l.len() - 1] == '\n');
            }
        }
    }
    assert(a + l + seq!['#'] + c + seq!['\n'] + b =~= a + w + seq!['\n'] + b);
    lemma_lines_around(a, w, b);
    lemma_lines_around(a, l, b);
    lemma_comment_keeps_content(l, c);
    lemma_same_content_keeps_rows(lines_of(a), strip_cr(w), strip_cr(l), lines_of(b));
}

/// `s2` is `s1` with the line `l`, which reads as blank (empty, white space
/// or a comment only), inserted at the start of a line: `s1` is `a + b`.
pub open spec fn blank_line_inserted(
    s1: Seq<char>,
    s2: Seq<char>,
    a: Seq<char>,
    l: Seq<char>,
    b: Seq<char>,
) -> bool {
    &&& s1 == a + b
    &&& s2 == a + l + seq!['\n'] + b
    &&& a.len() == 0 || a.last() == '\n'
    &&& !l.contains('\n')
    &&& line_content(strip_cr(l)).len() == 0
}

/// `s2` is `s1` with the comment `#c` added to its line `l`, which had none.
pub open spec fn comment_added(
    s1: Seq<char>,
    s2: Seq<char>,
    a: Seq<char>,
    l: Seq<char>,
    c: Seq<char>,
    b: Seq<char>,
) -> bool {
    &&& s1 == a + l + seq!['\n'] + b
    &&& s2 == a + l + seq!['#'] + c + seq!['\n'] + b
    &&& a.len() == 0 || a.last() == '\n'
    &&& !l.contains('\n')
    &&& !l.contains('#')
    &&& !c.contains('\n')
}

/// `s2` comes from `s1` by inserting a blank or comment-only line, or by
/// adding a comment to a line.
pub open spec fn comment_or_blank_added(s1: Seq<char>, s2: Seq<char>) -> bool {
    ||| exists|a: Seq<char>, l: Seq<char>, b: Seq<char>| #[trigger]
        blank_line_inserted(s1, s2, a, l, b)
    ||| exists|a: Seq<char>, l: Seq<char>, c: Seq<char>, b: Seq<char>| #[trigger]
        comment_added(s1, s2, a, l, c, b)
}

/// `s2` comes from `s1` by adding or removing a blank or comment-only line,
/// or a comment on a line.
pub open spec fn comment_or_blank_edit(s1: Seq<char>, s2: Seq<char>) -> bool {
    comment_or_blank_added(s1, s2) || comment_or_blank_added(s2, s1)
}

/// `s2` comes from `s1` by `n` steps, each of which adds or removes a blank
/// or comment-only line, or a comment on a line.
pub open spec fn comments_and_blank_lines_edited(s1: Seq<char>, s2: Seq<char>, n: nat) -> bool
    decreases n,
{
    if n == 0 {
        s1 == s2
    } else {
        exists|m: Seq<char>| #[trigger]
            comment_or_blank_edit(s1, m) && comments_and_blank_lines_edited(m, s2, (n - 1) as nat)
    }
}

/// One added blank or comment-only line, or comment, keeps the tokens of
/// the data rows.
proof fn lemma_added_keeps_row_tokens(s1: Seq<char>, s2: Seq<char>)
    requires
        comment_or_blank_added(s1, s2),
    ensures
        row_tokens(data_lines_of(s1)) == row_tokens(data_lines_of(s2)),
{
    if exists|a: Seq<char>, l: Seq<char>, b: Seq<char>| #[trigger]
        blank_line_inserted(s1, s2, a, l, b) {
        let (a, l, b) = choose|a: Seq<char>, l: Seq<char>, b: Seq<char>| #[trigger]
            blank_line_inserted(s1, s2, a, l, b);
        law_blank_line_keeps_row_tokens(a, l, b);
    } else {
        let (a, l, c, b) = choose|a: Seq<char>, l: Seq<char>, c: Seq<char>, b: Seq<char>| #[trigger]
            comment_added(s1, s2, a, l, c, b);
        law_comment_keeps_data_lines(a, l, c, b);
    }
}

/// Any number of blank or comment-only lines, and of comments, added or
/// removed leave the tokens of the data rows of a text as they were.
pub proof fn law_edits_keep_row_tokens(s1: Seq<char>, s2: Seq<char>, n: nat)
    requires
        comments_and_blank_lines_edited(s1, s2, n),
    ensures
        row_tokens(data_lines_of(s1)) == row_tokens(data_lines_of(s2)),
    decreases n,
{
    if n > 0 {
        let m = choose|m: Seq<char>| #[trigger]
            comment_or_blank_edit(s1, m) && comments_and_blank_lines_edited(m, s2, (n - 1) as nat);
        if comment_or_blank_added(s1, m) {
            lemma_added_keeps_row_tokens(s1, m);
        } else {
            lemma_added_keeps_row_tokens(m, s1);
        }
        law_edits_keep_row_tokens(m, s2, (n - 1) as nat);
    }
}

} // verus!
