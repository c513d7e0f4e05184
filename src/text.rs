use vstd::prelude::*;

verus! {

/// The characters that `char::is_whitespace` accepts (Unicode `White_Space`).
pub open spec fn is_space(c: char) -> bool {
    let u = c as u32;
    (0x09 <= u && u <= 0x0d) || u == 0x20 || u == 0x85 || u == 0xa0 || u == 0x1680 || (0x2000 <= u
        && u <= 0x200a) || u == 0x2028 || u == 0x2029 || u == 0x202f || u == 0x205f || u == 0x3000
}

pub fn is_space_char(c: char) -> (r: bool)
    ensures
        r == is_space(c),
{
    let u = c as u32;
    (0x09 <= u && u <= 0x0d) || u == 0x20 || u == 0x85 || u == 0xa0 || u == 0x1680 || (0x2000 <= u
        && u <= 0x200a) || u == 0x2028 || u == 0x2029 || u == 0x202f || u == 0x205f || u == 0x3000
}

/// How a text is cut into pieces.
#[derive(Clone, Copy, PartialEq, Eq, Structural)]
pub enum Splitter {
    /// Runs of whitespace separate fields; empty fields are dropped (`split_whitespace`).
    Whitespace,
    /// Each `'\n'` ends a line; a last empty line is dropped (`lines`, before `'\r'` removal).
    Newline,
    /// Each `','` separates two fields, empty ones included (`split(',')`).
    Comma,
}

pub open spec fn separates(sp: Splitter, c: char) -> bool {
    match sp {
        Splitter::Whitespace => is_space(c),
        Splitter::Newline => c == '\n',
        Splitter::Comma => c == ',',
    }
}

/// The pieces completed, and the piece in progress, after reading all of `s`.
pub open spec fn split_fold(s: Seq<char>, sp: Splitter) -> (Seq<Seq<char>>, Seq<char>)
    decreases s.len(),
{
    if s.len() == 0 {
        (Seq::empty(), Seq::empty())
    } else {
        let (done, cur) = split_fold(s.drop_last(), sp);
        let c = s.last();
        if separates(sp, c) {
            if sp == Splitter::Whitespace && cur.len() == 0 {
                (done, cur)
            } else {
                (done.push(cur), Seq::empty())
            }
        } else {
            (done, cur.push(c))
        }
    }
}

/// The pieces of `s` under the splitter `sp`.
pub open spec fn pieces(s: Seq<char>, sp: Splitter) -> Seq<Seq<char>> {
    let (done, cur) = split_fold(s, sp);
    if sp == Splitter::Comma || cur.len() > 0 {
        done.push(cur)
    } else {
        done
    }
}

pub fn is_separator(sp: Splitter, c: char) -> (r: bool)
    ensures
        r == separates(sp, c),
{
    match sp {
        Splitter::Whitespace => is_space_char(c),
        Splitter::Newline => c == '\n',
        Splitter::Comma => c == ',',
    }
}

pub fn split_pieces(s: &Vec<char>, sp: Splitter) -> (r: Vec<Vec<char>>)
    ensures
        r.deep_view() == pieces(s@, sp),
{
    let mut done: Vec<Vec<char>> = Vec::new();
    let mut cur: Vec<char> = Vec::new();
    let mut i: usize = 0;
    while i < s.len()
        invariant
            i <= s@.len(),
            (done.deep_view(), cur@) == split_fold(s@.subrange(0, i as int), sp),
        decreases s.len() - i,
    {
        let c = s[i];
        assert(s@.subrange(0, i + 1).drop_last() =~= s@.subrange(0, i as int));
        let ghost d0 = done.deep_view();
        if is_separator(sp, c) {
            if sp == Splitter::Whitespace && cur.len() == 0 {
            } else {
                let ghost c0 = cur@;
                assert(cur.deep_view() =~= c0);
                done.push(cur);
                assert(done.deep_view() =~= d0.push(c0));
                cur = Vec::new();
            }
        } else {
            cur.push(c);
        }
        i += 1;
    }
    assert(s@.subrange(0, s@.len() as int) =~= s@);
    if sp == Splitter::Comma || cur.len() > 0 {
        let ghost d0 = done.deep_view();
        let ghost c0 = cur@;
        assert(cur.deep_view() =~= c0);
        done.push(cur);
        assert(done.deep_view() =~= d0.push(c0));
    }
    done
}

/// A line without the `'\r'` of a `"\r\n"` ending.
pub open spec fn strip_cr(l: Seq<char>) -> Seq<char> {
    if l.len() > 0 && l.last() == '\r' {
        l.drop_last()
    } else {
        l
    }
}

pub open spec fn strip_cr_all(ls: Seq<Seq<char>>) -> Seq<Seq<char>>
    decreases ls.len(),
{
    if ls.len() == 0 {
        Seq::empty()
    } else {
        strip_cr_all(ls.drop_last()).push(strip_cr(ls.last()))
    }
}

/// Whether the text `s` ends in a line that no `'\n'` closes.
pub open spec fn open_last_line(s: Seq<char>) -> bool {
    s.len() > 0 && s.last() != '\n'
}

/// The lines of `s` as `str::lines` gives them: a `'\r'` goes only with the `'\n'` after it.
pub open spec fn lines(s: Seq<char>) -> Seq<Seq<char>> {
    let p = pieces(s, Splitter::Newline);
    if open_last_line(s) {
        strip_cr_all(p.drop_last()).push(p.last())
    } else {
        strip_cr_all(p)
    }
}

/// The whitespace-separated fields of `s` as `str::split_whitespace` gives them.
pub open spec fn fields(s: Seq<char>) -> Seq<Seq<char>> {
    pieces(s, Splitter::Whitespace)
}

pub fn split_lines(s: &Vec<char>) -> (r: Vec<Vec<char>>)
    ensures
        r.deep_view() == lines(s@),
{
    let raw = split_pieces(s, Splitter::Newline);
    let open_last = s.len() > 0 && s[s.len() - 1] != '\n';
    proof {
        if open_last {
            assert(s@.drop_last() =~= s@.subrange(0, s@.len() - 1));
            assert(split_fold(s@, Splitter::Newline).1.len() > 0);
            assert(raw.deep_view().len() > 0);
        }
    }
    let m: usize = if open_last {
        raw.len() - 1
    } else {
        raw.len()
    };
    let mut out: Vec<Vec<char>> = Vec::new();
    let mut i: usize = 0;
    while i < m
        invariant
            i <= m <= raw@.len(),
            open_last ==> m + 1 == raw@.len(),
            !open_last ==> m == raw@.len(),
            raw.deep_view() == pieces(s@, Splitter::Newline),
            out.deep_view() == strip_cr_all(raw.deep_view().subrange(0, i as int)),
        decreases raw.len() - i,
    {
        let l = &raw[i];
        let mut line: Vec<char> = Vec::new();
        let n: usize = if l.len() > 0 && l[l.len() - 1] == '\r' {
            l.len() - 1
        } else {
            l.len()
        };
        let mut j: usize = 0;
        while j < n
            invariant
                n <= l@.len(),
                j <= n,
                line@ == l@.subrange(0, j as int),
            decreases n - j,
        {
            line.push(l[j]);
            j += 1;
            assert(line@ =~= l@.subrange(0, j as int));
        }
        assert(raw.deep_view()[i as int] == l@);
        assert(line@ =~= strip_cr(l@));
        assert(raw.deep_view().subrange(0, i + 1).drop_last() =~= raw.deep_view().subrange(
            0,
            i as int,
        ));
        let ghost o0 = out.deep_view();
        assert(line.deep_view() =~= line@);
        out.push(line);
        assert(out.deep_view() =~= o0.push(strip_cr(l@)));
        i += 1;
    }
    if open_last {
        assert(raw.deep_view().subrange(0, m as int) =~= raw.deep_view().drop_last());
        let last = copy_range(&raw[m], 0, raw[m].len());
        let ghost o0 = out.deep_view();
        assert(last.deep_view() =~= last@);
        assert(last@ =~= raw@[m as int]@);
        assert(raw.deep_view()[m as int] == raw@[m as int]@);
        out.push(last);
        assert(out.deep_view() =~= o0.push(raw.deep_view().last()));
    } else {
        assert(raw.deep_view().subrange(0, m as int) =~= raw.deep_view());
    }
    out
}

pub fn split_fields(s: &Vec<char>) -> (r: Vec<Vec<char>>)
    ensures
        r.deep_view() == fields(s@),
{
    split_pieces(s, Splitter::Whitespace)
}

pub fn copy_range(s: &Vec<char>, lo: usize, hi: usize) -> (r: Vec<char>)
    requires
        lo <= hi <= s@.len(),
    ensures
        r@ == s@.subrange(lo as int, hi as int),
{
    let mut r: Vec<char> = Vec::new();
    let mut j: usize = lo;
    while j < hi
        invariant
            lo <= j <= hi <= s@.len(),
            r@ == s@.subrange(lo as int, j as int),
        decreases hi - j,
    {
        r.push(s[j]);
        j += 1;
        assert(r@ =~= s@.subrange(lo as int, j as int));
    }
    r
}

/// Which characters `trim` takes off both ends of a field.
#[derive(Clone, Copy, PartialEq, Eq, Structural)]
pub enum Trim {
    /// `'('` and `')'`.
    Parens,
    /// `'"'`.
    Quotes,
}

pub open spec fn trimmed_by(t: Trim, c: char) -> bool {
    match t {
        Trim::Parens => c == '(' || c == ')',
        Trim::Quotes => c == '"',
    }
}

pub open spec fn trim_front(s: Seq<char>, t: Trim) -> Seq<char>
    decreases s.len(),
{
    if s.len() > 0 && trimmed_by(t, s[0]) {
        trim_front(s.drop_first(), t)
    } else {
        s
    }
}

pub open spec fn trim_back(s: Seq<char>, t: Trim) -> Seq<char>
    decreases s.len(),
{
    if s.len() > 0 && trimmed_by(t, s.last()) {
        trim_back(s.drop_last(), t)
    } else {
        s
    }
}

/// `s` with the characters of `t` taken off both ends, as `str::trim_matches` does.
pub open spec fn trim_spec(s: Seq<char>, t: Trim) -> Seq<char> {
    trim_back(trim_front(s, t), t)
}

pub fn is_trimmed(t: Trim, c: char) -> (r: bool)
    ensures
        r == trimmed_by(t, c),
{
    match t {
        Trim::Parens => c == '(' || c == ')',
        Trim::Quotes => c == '"',
    }
}

pub fn trim(s: &Vec<char>, t: Trim) -> (r: Vec<char>)
    ensures
        r@ == trim_spec(s@, t),
{
    let n = s.len();
    let mut i: usize = 0;
    assert(s@.subrange(0, n as int) =~= s@);
    while i < n && is_trimmed(t, s[i])
        invariant
            i <= n == s@.len(),
            trim_front(s@, t) == trim_front(s@.subrange(i as int, n as int), t),
        decreases n - i,
    {
        assert(s@.subrange(i as int, n as int).drop_first() =~= s@.subrange(i + 1, n as int));
        i += 1;
    }
    let mut j: usize = n;
    while j > i && is_trimmed(t, s[j - 1])
        invariant
            i <= j <= n == s@.len(),
            trim_back(s@.subrange(i as int, n as int), t) == trim_back(
                s@.subrange(i as int, j as int),
                t,
            ),
        decreases j,
    {
        assert(s@.subrange(i as int, j as int).drop_last() =~= s@.subrange(i as int, j - 1));
        j -= 1;
    }
    copy_range(s, i, j)
}

pub open spec fn is_digit(c: char) -> bool {
    '0' as u32 <= c as u32 && c as u32 <= '9' as u32
}

pub open spec fn digit_value(c: char) -> nat {
    (c as u32 - '0' as u32) as nat
}

pub open spec fn all_digits(s: Seq<char>) -> bool {
    forall|i: int| 0 <= i < s.len() ==> is_digit(#[trigger] s[i])
}

/// The number that the decimal digits `s` write.
pub open spec fn decimal_value(s: Seq<char>) -> nat
    decreases s.len(),
{
    if s.len() == 0 {
        0
    } else {
        decimal_value(s.drop_last()) * 10 + digit_value(s.last())
    }
}

/// The digits of an unsigned number: one leading `'+'` may stand before them.
pub open spec fn unsigned_digits(s: Seq<char>) -> Seq<char> {
    if s.len() > 0 && s[0] == '+' {
        s.drop_first()
    } else {
        s
    }
}

/// What `str::parse` yields for an unsigned integer type whose largest value is `max`.
pub open spec fn parse_unsigned_spec(s: Seq<char>, max: nat) -> Option<nat> {
    let d = unsigned_digits(s);
    if d.len() > 0 && all_digits(d) && decimal_value(d) <= max {
        Some(decimal_value(d))
    } else {
        None
    }
}

proof fn lemma_decimal_prefix(s: Seq<char>, j: int)
    requires
        0 <= j <= s.len(),
    ensures
        decimal_value(s.subrange(0, j)) <= decimal_value(s),
    decreases s.len(),
{
    if j < s.len() {
        assert(s.drop_last().subrange(0, j) =~= s.subrange(0, j));
        lemma_decimal_prefix(s.drop_last(), j);
    } else {
        assert(s.subrange(0, j) =~= s);
    }
}

pub fn parse_unsigned(s: &Vec<char>, max: u32) -> (r: Option<u32>)
    ensures
        match parse_unsigned_spec(s@, max as nat) {
            Some(v) => r == Some(v as u32),
            None => r is None,
        },
{
    let n = s.len();
    let start: usize = if n > 0 && s[0] == '+' {
        1
    } else {
        0
    };
    let ghost d = unsigned_digits(s@);
    assert(d =~= s@.subrange(start as int, n as int));
    if start == n {
        return None;
    }
    let mut acc: u64 = 0;
    let mut i: usize = start;
    while i < n
        invariant
            start <= i <= n == s@.len(),
            d == s@.subrange(start as int, n as int),
            d == unsigned_digits(s@),
            all_digits(d.subrange(0, i - start)),
            acc == decimal_value(d.subrange(0, i - start)),
            acc <= max,
        decreases n - i,
    {
        let c = s[i];
        let u = c as u32;
        assert(d[i - start] == c);
        if !(48 <= u && u <= 57) {
            assert(!is_digit(d[i - start]));
            assert(!all_digits(d));
            return None;
        }
        let k = i - start;
        assert(d.subrange(0, k + 1).drop_last() =~= d.subrange(0, k as int));
        assert(d.subrange(0, k + 1).last() == c);
        acc = acc * 10 + (u - 48) as u64;
        i += 1;
        assert(acc == decimal_value(d.subrange(0, i - start)));
        assert(all_digits(d.subrange(0, i - start)));
        if acc > max as u64 {
            proof {
                if all_digits(d) {
                    lemma_decimal_prefix(d, i - start);
                }
            }
            return None;
        }
    }
    assert(d.subrange(0, n - start) =~= d);
    Some(acc as u32)
}

/// Index of the last `c` in `s`, or -1 where there is none.
pub open spec fn last_index_of(s: Seq<char>, c: char) -> int
    decreases s.len(),
{
    if s.len() == 0 {
        -1
    } else if s.last() == c {
        s.len() - 1
    } else {
        last_index_of(s.drop_last(), c)
    }
}

pub fn rfind_char(s: &Vec<char>, c: char) -> (r: Option<usize>)
    ensures
        match r {
            Some(i) => i == last_index_of(s@, c) && i < s@.len(),
            None => last_index_of(s@, c) == -1,
        },
{
    let mut j: usize = s.len();
    assert(s@.subrange(0, j as int) =~= s@);
    while j > 0
        invariant
            j <= s@.len(),
            last_index_of(s@, c) == last_index_of(s@.subrange(0, j as int), c),
        decreases j,
    {
        if s[j - 1] == c {
            return Some(j - 1);
        }
        assert(s@.subrange(0, j as int).drop_last() =~= s@.subrange(0, j - 1));
        j -= 1;
    }
    None
}

pub proof fn lemma_last_index_bounds(s: Seq<char>, c: char)
    ensures
        -1 <= last_index_of(s, c) < s.len(),
        last_index_of(s, c) >= 0 ==> s[last_index_of(s, c)] == c,
    decreases s.len(),
{
    if s.len() > 0 && s.last() != c {
        lemma_last_index_bounds(s.drop_last(), c);
    }
}

/// Whether `"->"` starts at index `i` of `s`.
pub open spec fn arrow_at(s: Seq<char>, i: int) -> bool {
    0 <= i && i + 1 < s.len() && s[i] == '-' && s[i + 1] == '>'
}

/// Index of the first `"->"` in `s` at or after `i`, or -1 where there is none.
pub open spec fn arrow_from(s: Seq<char>, i: int) -> int
    decreases s.len() - i,
{
    if i < 0 || i + 1 >= s.len() {
        -1
    } else if arrow_at(s, i) {
        i
    } else {
        arrow_from(s, i + 1)
    }
}

pub fn find_arrow(s: &Vec<char>) -> (r: Option<usize>)
    ensures
        match r {
            Some(i) => i == arrow_from(s@, 0) && i < s@.len(),
            None => arrow_from(s@, 0) == -1,
        },
{
    let mut i: usize = 0;
    while i < s.len() && s.len() - i > 1
        invariant
            i <= s@.len(),
            arrow_from(s@, 0) == arrow_from(s@, i as int),
        decreases s.len() - i,
    {
        if s[i] == '-' && s[i + 1] == '>' {
            return Some(i);
        }
        i += 1;
    }
    None
}

pub open spec fn digit_char(d: nat) -> char {
    ('0' as u32 + d) as char
}

/// The decimal digits of `n`, as `u32::to_string` writes them.
pub open spec fn decimal_text(n: nat) -> Seq<char>
    decreases n,
{
    if n < 10 {
        seq![digit_char(n)]
    } else {
        decimal_text(n / 10).push(digit_char(n % 10))
    }
}

pub fn push_decimal(out: &mut Vec<char>, n: u32)
    ensures
        final(out)@ == old(out)@ + decimal_text(n as nat),
    decreases n,
{
    if n < 10 {
        out.push(char_of_digit(n));
        assert(out@ =~= old(out)@ + decimal_text(n as nat));
    } else {
        push_decimal(out, n / 10);
        out.push(char_of_digit(n % 10));
        assert(out@ =~= old(out)@ + decimal_text(n as nat));
    }
}

fn char_of_digit(d: u32) -> (r: char)
    requires
        d < 10,
    ensures
        r == digit_char(d as nat),
{
    let digits: [char; 10] = ['0', '1', '2', '3', '4', '5', '6', '7', '8', '9'];
    digits[d as usize]
}

pub fn push_all(out: &mut Vec<char>, s: &Vec<char>)
    ensures
        final(out)@ == old(out)@ + s@,
{
    let mut i: usize = 0;
    while i < s.len()
        invariant
            i <= s@.len(),
            out@ == old(out)@ + s@.subrange(0, i as int),
        decreases s.len() - i,
    {
        out.push(s[i]);
        i += 1;
        assert(out@ =~= old(out)@ + s@.subrange(0, i as int));
    }
    assert(s@.subrange(0, s@.len() as int) =~= s@);
}

/// Relies on `str::chars`, collected into a `Vec`: the characters of `s` in order.
#[verifier::external_body]
pub(crate) fn chars_of(s: &str) -> (r: Vec<char>)
    ensures
        r@ == s@,
{
    s.chars().collect()
}

/// Relies on `String`'s `FromIterator<char>`: the string of the characters `v` in order.
#[verifier::external_body]
pub(crate) fn string_of(v: &Vec<char>) -> (r: String)
    ensures
        r@ == v@,
{
    v.iter().collect()
}

} // verus!
