//! Character-level text handling shared by the file-format readers:
//! line splitting, whitespace trimming and tokenising, comment stripping,
//! literal comparison and building `String`s from characters.
use vstd::prelude::*;

verus! {

/// Unicode `White_Space`, the set that `char::is_whitespace` tests.
pub open spec fn is_space(c: char) -> bool {
    let u = c as u32;
    ||| 0x09 <= u && u <= 0x0D
    ||| u == 0x20
    ||| u == 0x85
    ||| u == 0xA0
    ||| u == 0x1680
    ||| 0x2000 <= u && u <= 0x200A
    ||| u == 0x2028
    ||| u == 0x2029
    ||| u == 0x202F
    ||| u == 0x205F
    ||| u == 0x3000
}

/// A line of text without the trailing carriage return of a `\r\n` ending.
pub open spec fn strip_cr(l: Seq<char>) -> Seq<char> {
    if l.len() > 0 && l.last() == '\r' {
        l.drop_last()
    } else {
        l
    }
}

/// Lines finished so far and the line under construction after reading `s`.
pub open spec fn line_state(s: Seq<char>) -> (Seq<Seq<char>>, Seq<char>)
    decreases s.len(),
{
    if s.len() == 0 {
        (seq![], seq![])
    } else {
        let prev = line_state(s.drop_last());
        if s.last() == '\n' {
            (prev.0.push(strip_cr(prev.1)), seq![])
        } else {
            (prev.0, prev.1.push(s.last()))
        }
    }
}

/// The lines of a text as `str::lines` yields them: split at `\n`, a `\r`
/// before the `\n` removed, no empty line after a final `\n`.
pub open spec fn lines_of(s: Seq<char>) -> Seq<Seq<char>> {
    let st = line_state(s);
    if st.1.len() > 0 {
        st.0.push(st.1)
    } else {
        st.0
    }
}

/// Words finished so far and the word under construction after reading `s`.
pub open spec fn word_state(s: Seq<char>) -> (Seq<Seq<char>>, Seq<char>)
    decreases s.len(),
{
    if s.len() == 0 {
        (seq![], seq![])
    } else {
        let prev = word_state(s.drop_last());
        if is_space(s.last()) {
            if prev.1.len() > 0 {
                (prev.0.push(prev.1), seq![])
            } else {
                prev
            }
        } else {
            (prev.0, prev.1.push(s.last()))
        }
    }
}

/// The maximal runs of non-whitespace characters, as `str::split_whitespace`
/// yields them.
pub open spec fn words(s: Seq<char>) -> Seq<Seq<char>> {
    let st = word_state(s);
    if st.1.len() > 0 {
        st.0.push(st.1)
    } else {
        st.0
    }
}

/// `s` without trailing whitespace.
pub open spec fn trim_end(s: Seq<char>) -> Seq<char>
    decreases s.len(),
{
    if s.len() > 0 && is_space(s.last()) {
        trim_end(s.drop_last())
    } else {
        s
    }
}

/// `s` without leading whitespace.
pub open spec fn trim_start(s: Seq<char>) -> Seq<char>
    decreases s.len(),
{
    if s.len() > 0 && is_space(s[0]) {
        trim_start(s.drop_first())
    } else {
        s
    }
}

/// `s` without leading and trailing whitespace (`str::trim`).
pub open spec fn trim(s: Seq<char>) -> Seq<char> {
    trim_start(trim_end(s))
}

/// The part of `s` before the first occurrence of `c` (all of `s` if `c`
/// does not occur): what `s.split(c).next()` gives.
pub open spec fn before_char(s: Seq<char>, c: char) -> Seq<char>
    decreases s.len(),
{
    if s.len() == 0 {
        s
    } else if s[0] == c {
        seq![]
    } else {
        seq![s[0]] + before_char(s.drop_first(), c)
    }
}

/// The characters of each element.
pub open spec fn char_views(v: Seq<Vec<char>>) -> Seq<Seq<char>> {
    v.map_values(|x: Vec<char>| x@)
}

/// Whether `c` is white space (`char::is_whitespace`).
pub fn is_space_char(c: char) -> (b: bool)
    ensures
        b == is_space(c),
{
    let u = c as u32;
    (0x09 <= u && u <= 0x0D) || u == 0x20 || u == 0x85 || u == 0xA0 || u == 0x1680 || (0x2000
        <= u && u <= 0x200A) || u == 0x2028 || u == 0x2029 || u == 0x202F || u == 0x205F || u
        == 0x3000
}

/// The characters of a string.
pub fn chars_of(s: &str) -> (r: Vec<char>)
    ensures
        r@ == s@,
{
    let mut r: Vec<char> = Vec::new();
    for c in it: s.chars()
        invariant
            r@ == it.seq().take(it.index() as int),
    {
        r.push(c);
    }
    r
}

/// Appends one character to a string (`String::push`).
#[verifier::external_body]
fn push_char(s: &mut String, c: char)
    ensures
        final(s)@ == old(s)@.push(c),
{
    s.push(c);
}

/// A `String` holding the given characters.
pub fn string_from(chars: &[char]) -> (s: String)
    ensures
        s@ == chars@,
{
    let mut s = String::new();
    let mut i: usize = 0;
    while i < chars.len()
        invariant
            i <= chars@.len(),
            s@ == chars@.take(i as int),
        decreases chars@.len() - i,
    {
        push_char(&mut s, chars[i]);
        assert(chars@.take(i as int).push(chars@[i as int]) =~= chars@.take(i + 1));
        i += 1;
    }
    assert(chars@.take(chars@.len() as int) =~= chars@);
    s
}

/// A `String` holding `s` followed by the characters of `tail`.
pub fn append_chars(s: &mut String, tail: &[char])
    ensures
        final(s)@ == old(s)@ + tail@,
{
    let ghost start = s@;
    let mut i: usize = 0;
    while i < tail.len()
        invariant
            i <= tail@.len(),
            s@ == start + tail@.take(i as int),
        decreases tail@.len() - i,
    {
        push_char(s, tail[i]);
        assert(start + tail@.take(i as int) + seq![tail@[i as int]] =~= start + tail@.take(i + 1));
        i += 1;
    }
    assert(tail@.take(tail@.len() as int) =~= tail@);
}

/// Appends the characters of `tail` to `s`.
pub fn append_str(s: &mut String, tail: &str)
    ensures
        final(s)@ == old(s)@ + tail@,
{
    let t = chars_of(tail);
    append_chars(s, t.as_slice());
}

/// A copy of `s[from..to]`.
pub fn copy_range(s: &[char], from: usize, to: usize) -> (r: Vec<char>)
    requires
        from <= to <= s@.len(),
    ensures
        r@ == s@.subrange(from as int, to as int),
{
    let mut r: Vec<char> = Vec::new();
    let mut i = from;
    while i < to
        invariant
            from <= i <= to <= s@.len(),
            r@ == s@.subrange(from as int, i as int),
        decreases to - i,
    {
        r.push(s[i]);
        assert(s@.subrange(from as int, i as int).push(s@[i as int]) =~= s@.subrange(
            from as int,
            i + 1,
        ));
        i += 1;
    }
    r
}

/// Whether two character sequences are equal.
pub fn same_chars(a: &[char], b: &[char]) -> (r: bool)
    ensures
        r == (a@ == b@),
{
    if a.len() != b.len() {
        return false;
    }
    let mut i: usize = 0;
    while i < a.len()
        invariant
            a@.len() == b@.len(),
            i <= a@.len(),
            forall|j: int| 0 <= j < i ==> a@[j] == b@[j],
        decreases a@.len() - i,
    {
        if a[i] != b[i] {
            return false;
        }
        i += 1;
    }
    assert(a@ =~= b@);
    true
}

/// Whether the characters `a` spell the string `lit`.
pub fn is_literal(a: &[char], lit: &str) -> (r: bool)
    ensures
        r == (a@ == lit@),
{
    let b = chars_of(lit);
    same_chars(a, b.as_slice())
}

/// Whether `a` begins with the characters of `prefix`.
pub fn starts_with(a: &[char], prefix: &str) -> (r: bool)
    ensures
        r == (prefix@.len() <= a@.len() && a@.take(prefix@.len() as int) == prefix@),
{
    let p = chars_of(prefix);
    if p.len() > a.len() {
        return false;
    }
    let mut i: usize = 0;
    while i < p.len()
        invariant
            p@ == prefix@,
            p@.len() <= a@.len(),
            i <= p@.len(),
            forall|j: int| 0 <= j < i ==> a@[j] == p@[j],
        decreases p@.len() - i,
    {
        if a[i] != p[i] {
            assert(a@.take(p@.len() as int)[i as int] != p@[i as int]);
            assert(a@.take(p@.len() as int) != prefix@);
            return false;
        }
        i += 1;
    }
    assert(a@.take(p@.len() as int) =~= p@);
    true
}

/// The lines of a text (`str::lines`).
pub fn split_lines(s: &[char]) -> (r: Vec<Vec<char>>)
    ensures
        char_views(r@) == lines_of(s@),
        r@.len() <= s@.len(),
{
    let mut done: Vec<Vec<char>> = Vec::new();
    let mut cur: Vec<char> = Vec::new();
    let mut i: usize = 0;
    while i < s.len()
        invariant
            i <= s@.len(),
            line_state(s@.take(i as int)) == (char_views(done@), cur@),
            done@.len() + cur@.len() <= i,
        decreases s@.len() - i,
    {
        let c = s[i];
        assert(s@.take(i + 1).drop_last() =~= s@.take(i as int));
        if c == '\n' {
            let mut line = cur;
            if line.len() > 0 && line[line.len() - 1] == '\r' {
                line.pop();
            }
            assert(line@ == strip_cr(cur@)) by {
                if cur@.len() > 0 && cur@.last() == '\r' {
                    assert(line@ =~= cur@.drop_last());
                }
            }
            let ghost prev = done@;
            done.push(line);
            assert(char_views(done@) =~= char_views(prev).push(line@));
            cur = Vec::new();
            assert(cur@ =~= Seq::<char>::empty());
        } else {
            cur.push(c);
        }
        i += 1;
    }
    assert(s@.take(s@.len() as int) =~= s@);
    if cur.len() > 0 {
        let ghost prev = done@;
        done.push(cur);
        assert(char_views(done@) =~= char_views(prev).push(cur@));
    }
    done
}

/// The whitespace-separated words of `s` (`str::split_whitespace`).
pub fn split_words(s: &[char]) -> (r: Vec<Vec<char>>)
    ensures
        char_views(r@) == words(s@),
{
    let mut done: Vec<Vec<char>> = Vec::new();
    let mut cur: Vec<char> = Vec::new();
    let mut i: usize = 0;
    while i < s.len()
        invariant
            i <= s@.len(),
            word_state(s@.take(i as int)) == (char_views(done@), cur@),
        decreases s@.len() - i,
    {
        let c = s[i];
        assert(s@.take(i + 1).drop_last() =~= s@.take(i as int));
        if is_space_char(c) {
            if cur.len() > 0 {
                let ghost prev = done@;
                let word = cur;
                done.push(word);
                assert(char_views(done@) =~= char_views(prev).push(word@));
                cur = Vec::new();
                assert(cur@ =~= Seq::<char>::empty());
            }
        } else {
            cur.push(c);
        }
        i += 1;
    }
    assert(s@.take(s@.len() as int) =~= s@);
    if cur.len() > 0 {
        let ghost prev = done@;
        done.push(cur);
        assert(char_views(done@) =~= char_views(prev).push(cur@));
    }
    done
}

/// `s` without leading and trailing whitespace (`str::trim`).
pub fn trim_chars(s: &[char]) -> (r: Vec<char>)
    ensures
        r@ == trim(s@),
{
    let mut b = s.len();
    assert(s@.take(b as int) =~= s@);
    while b > 0 && is_space_char(s[b - 1])
        invariant
            b <= s@.len(),
            trim_end(s@) == trim_end(s@.take(b as int)),
        decreases b,
    {
        assert(s@.take(b as int).drop_last() =~= s@.take(b - 1));
        b -= 1;
    }
    let ghost x = s@.take(b as int);
    assert(trim_end(x) == x);
    let mut a: usize = 0;
    while a < b && is_space_char(s[a])
        invariant
            a <= b <= s@.len(),
            x == s@.take(b as int),
            trim_start(x) == trim_start(s@.subrange(a as int, b as int)),
        decreases b - a,
    {
        assert(s@.subrange(a as int, b as int).drop_first() =~= s@.subrange(a + 1, b as int));
        a += 1;
    }
    assert(x =~= s@.subrange(0, b as int));
    copy_range(s, a, b)
}

/// The part of `s` before the first `c` (`s.split(c).next()`).
pub fn chars_before(s: &[char], c: char) -> (r: Vec<char>)
    ensures
        r@ == before_char(s@, c),
{
    let mut i: usize = 0;
    assert(s@.skip(0) =~= s@);
    assert(s@.take(0) + s@ =~= s@);
    while i < s.len() && s[i] != c
        invariant
            i <= s@.len(),
            before_char(s@, c) == s@.take(i as int) + before_char(s@.skip(i as int), c),
        decreases s@.len() - i,
    {
        assert(s@.skip(i as int).drop_first() =~= s@.skip(i + 1));
        assert(s@.take(i as int) + seq![s@[i as int]] =~= s@.take(i + 1));
        assert(s@.take(i as int) + (seq![s@[i as int]] + before_char(s@.skip(i + 1), c))
            =~= s@.take(i + 1) + before_char(s@.skip(i + 1), c));
        i += 1;
    }
    assert(before_char(s@.skip(i as int), c) =~= Seq::<char>::empty());
    assert(s@.take(i as int) + Seq::<char>::empty() =~= s@.take(i as int));
    copy_range(s, 0, i)
}

/// Pieces finished so far and the piece under construction after reading
/// `s`, splitting at `c`.
pub open spec fn split_state(s: Seq<char>, c: char) -> (Seq<Seq<char>>, Seq<char>)
    decreases s.len(),
{
    if s.len() == 0 {
        (seq![], seq![])
    } else {
        let prev = split_state(s.drop_last(), c);
        if s.last() == c {
            (prev.0.push(prev.1), seq![])
        } else {
            (prev.0, prev.1.push(s.last()))
        }
    }
}

/// The pieces of `s` between occurrences of `c`, as `str::split` yields
/// them: always at least one, possibly empty.
pub open spec fn split_on(s: Seq<char>, c: char) -> Seq<Seq<char>> {
    let st = split_state(s, c);
    st.0.push(st.1)
}

/// The pieces of `s` between occurrences of `c` (`str::split`).
pub fn split_chars(s: &[char], c: char) -> (r: Vec<Vec<char>>)
    ensures
        char_views(r@) == split_on(s@, c),
{
    let mut done: Vec<Vec<char>> = Vec::new();
    let mut cur: Vec<char> = Vec::new();
    let mut i: usize = 0;
    while i < s.len()
        invariant
            i <= s@.len(),
            split_state(s@.take(i as int), c) == (char_views(done@), cur@),
        decreases s@.len() - i,
    {
        assert(s@.take(i + 1).drop_last() =~= s@.take(i as int));
        if s[i] == c {
            let ghost prev = done@;
            let piece = cur;
            done.push(piece);
            assert(char_views(done@) =~= char_views(prev).push(piece@));
            cur = Vec::new();
            assert(cur@ =~= Seq::<char>::empty());
        } else {
            cur.push(s[i]);
        }
        i += 1;
    }
    assert(s@.take(s@.len() as int) =~= s@);
    let ghost prev = done@;
    done.push(cur);
    assert(char_views(done@) =~= char_views(prev).push(cur@));
    done
}

/// ASCII lower case letters mapped to upper case.
pub open spec fn ascii_upper(c: char) -> char {
    if 'a' <= c && c <= 'z' {
        ((c as u8) - 32) as char
    } else {
        c
    }
}

/// ASCII upper case letters mapped to lower case.
pub open spec fn ascii_lower_char(c: char) -> char {
    if 'A' <= c && c <= 'Z' {
        ((c as u8) + 32) as char
    } else {
        c
    }
}

/// `s` with ASCII letters in upper case (`str::to_ascii_uppercase`).
pub open spec fn upper(s: Seq<char>) -> Seq<char> {
    s.map_values(|c: char| ascii_upper(c))
}

/// `s` with ASCII letters in upper case.
pub fn upper_chars(s: &[char]) -> (r: Vec<char>)
    ensures
        r@ == upper(s@),
{
    let mut r: Vec<char> = Vec::new();
    let mut i: usize = 0;
    while i < s.len()
        invariant
            i <= s@.len(),
            r@ == upper(s@.take(i as int)),
        decreases s@.len() - i,
    {
        let c = s[i];
        let u = if 'a' <= c && c <= 'z' {
            ((c as u8) - 32) as char
        } else {
            c
        };
        r.push(u);
        assert(upper(s@.take(i + 1)) =~= upper(s@.take(i as int)).push(u));
        i += 1;
    }
    assert(s@.take(s@.len() as int) =~= s@);
    r
}

/// Equal once ASCII letters are put in the same case
/// (`str::eq_ignore_ascii_case`).
pub open spec fn same_ignoring_case(a: Seq<char>, b: Seq<char>) -> bool {
    a.len() == b.len() && forall|i: int|
        0 <= i < a.len() ==> ascii_lower_char(#[trigger] a[i]) == ascii_lower_char(b[i])
}

/// Whether `a` and `b` are equal once ASCII letters are put in the same case.
pub fn eq_ignore_case(a: &[char], b: &str) -> (r: bool)
    ensures
        r == same_ignoring_case(a@, b@),
{
    let bs = chars_of(b);
    if a.len() != bs.len() {
        return false;
    }
    let mut i: usize = 0;
    while i < a.len()
        invariant
            bs@ == b@,
            a@.len() == bs@.len(),
            i <= a@.len(),
            forall|j: int| 0 <= j < i ==> ascii_lower_char(#[trigger] a@[j]) == ascii_lower_char(bs@[j]),
        decreases a@.len() - i,
    {
        let x = a[i];
        let y = bs[i];
        let lx = if 'A' <= x && x <= 'Z' {
            ((x as u8) + 32) as char
        } else {
            x
        };
        let ly = if 'A' <= y && y <= 'Z' {
            ((y as u8) + 32) as char
        } else {
            y
        };
        if lx != ly {
            assert(ascii_lower_char(a@[i as int]) != ascii_lower_char(bs@[i as int]));
            return false;
        }
        i += 1;
    }
    true
}

/// `s` without leading occurrences of `c`.
pub open spec fn trim_start_char(s: Seq<char>, c: char) -> Seq<char>
    decreases s.len(),
{
    if s.len() > 0 && s[0] == c {
        trim_start_char(s.drop_first(), c)
    } else {
        s
    }
}

/// `s` without trailing occurrences of `c`.
pub open spec fn trim_end_char(s: Seq<char>, c: char) -> Seq<char>
    decreases s.len(),
{
    if s.len() > 0 && s.last() == c {
        trim_end_char(s.drop_last(), c)
    } else {
        s
    }
}

/// `s` without leading and trailing occurrences of `c` (`str::trim_matches`).
pub open spec fn trim_matches(s: Seq<char>, c: char) -> Seq<char> {
    trim_end_char(trim_start_char(s, c), c)
}

/// `s` without leading and trailing occurrences of `c`.
pub fn trim_matches_chars(s: &[char], c: char) -> (r: Vec<char>)
    ensures
        r@ == trim_matches(s@, c),
{
    let mut a: usize = 0;
    assert(s@.subrange(0, s@.len() as int) =~= s@);
    while a < s.len() && s[a] == c
        invariant
            a <= s@.len(),
            trim_start_char(s@, c) == trim_start_char(s@.subrange(a as int, s@.len() as int), c),
        decreases s@.len() - a,
    {
        assert(s@.subrange(a as int, s@.len() as int).drop_first() =~= s@.subrange(
            a + 1,
            s@.len() as int,
        ));
        a += 1;
    }
    let ghost x = s@.subrange(a as int, s@.len() as int);
    assert(trim_start_char(x, c) == x);
    let mut b = s.len();
    assert(x.subrange(0, x.len() as int) =~= x);
    while b > a && s[b - 1] == c
        invariant
            a <= b <= s@.len(),
            x == s@.subrange(a as int, s@.len() as int),
            trim_end_char(x, c) == trim_end_char(s@.subrange(a as int, b as int), c),
        decreases b,
    {
        assert(s@.subrange(a as int, b as int).drop_last() =~= s@.subrange(a as int, b - 1));
        b -= 1;
    }
    copy_range(s, a, b)
}

/// The parts of `s` before and after its first `c`, if it has one
/// (`str::split_once`).
pub open spec fn split_once(s: Seq<char>, c: char) -> Option<(Seq<char>, Seq<char>)> {
    let head = before_char(s, c);
    if head.len() < s.len() {
        Some((head, s.skip(head.len() + 1int)))
    } else {
        None
    }
}

} // verus!
