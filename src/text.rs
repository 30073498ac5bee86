//! Character-level text utilities: splitting into lines, joining, trimming and
//! decimal rendering, each with a specification over `Seq<char>`.

use vstd::prelude::*;

verus! {

/// Views of a vector of lines.
pub open spec fn lines_view(v: Seq<Vec<char>>) -> Seq<Seq<char>> {
    Seq::new(v.len(), |i: int| v[i]@)
}

/// Pieces of `s` separated by `sep`; `n` separators give `n + 1` pieces.
pub open spec fn split_spec(s: Seq<char>, sep: char) -> Seq<Seq<char>>
    decreases s.len(),
{
    if s.len() == 0 {
        seq![Seq::<char>::empty()]
    } else {
        let init = split_spec(s.drop_last(), sep);
        if s.last() == sep {
            init.push(Seq::<char>::empty())
        } else {
            init.update(init.len() - 1, init.last().push(s.last()))
        }
    }
}

/// The pieces of `ls` with one `sep` between each two.
pub open spec fn join_spec(ls: Seq<Seq<char>>, sep: char) -> Seq<char>
    decreases ls.len(),
{
    if ls.len() == 0 {
        Seq::<char>::empty()
    } else if ls.len() == 1 {
        ls[0]
    } else {
        join_spec(ls.drop_last(), sep) + seq![sep] + ls.last()
    }
}

pub proof fn lemma_split_nonempty(s: Seq<char>, sep: char)
    ensures
        split_spec(s, sep).len() >= 1,
    decreases s.len(),
{
    if s.len() > 0 {
        lemma_split_nonempty(s.drop_last(), sep);
    }
}


/// Relies on `String::push`: appends one character to the end of the string.
#[verifier::external_body]
fn push_char(s: &mut String, c: char)
    ensures
        final(s)@ == old(s)@.push(c),
{
    s.push(c)
}

/// The characters of `s`, in order.
pub fn chars_of(s: &str) -> (r: Vec<char>)
    ensures
        r@ == s@,
{
    let mut r: Vec<char> = Vec::new();
    for c in it: s.chars()
        invariant
            r@ == it.history(),
    {
        r.push(c);
    }
    r
}

/// A string holding exactly the characters of `v`.
pub fn string_of(v: &Vec<char>) -> (r: String)
    ensures
        r@ == v@,
{
    let mut r = String::new();
    let mut i: usize = 0;
    while i < v.len()
        invariant
            i <= v.len(),
            r@ == v@.subrange(0, i as int),
        decreases v.len() - i,
    {
        push_char(&mut r, v[i]);
        i += 1;
        assert(r@ =~= v@.subrange(0, i as int));
    }
    assert(r@ =~= v@);
    r
}

/// A copy of `v`.
pub fn copy_chars(v: &Vec<char>) -> (r: Vec<char>)
    ensures
        r@ == v@,
{
    let mut r: Vec<char> = Vec::new();
    let mut i: usize = 0;
    while i < v.len()
        invariant
            i <= v.len(),
            r@ == v@.subrange(0, i as int),
        decreases v.len() - i,
    {
        r.push(v[i]);
        i += 1;
        assert(r@ =~= v@.subrange(0, i as int));
    }
    assert(r@ =~= v@);
    r
}

/// Splits `s` at every `sep`.
pub fn split_chars(s: &Vec<char>, sep: char) -> (r: Vec<Vec<char>>)
    ensures
        lines_view(r@) == split_spec(s@, sep),
{
    let mut r: Vec<Vec<char>> = Vec::new();
    let mut cur: Vec<char> = Vec::new();
    let mut i: usize = 0;
    while i < s.len()
        invariant
            i <= s.len(),
            lines_view(r@).push(cur@) == split_spec(s@.subrange(0, i as int), sep),
        decreases s.len() - i,
    {
        let c = s[i];
        proof {
            let t = s@.subrange(0, i as int + 1);
            assert(t.drop_last() =~= s@.subrange(0, i as int));
            assert(t.last() == c);
        }
        if c == sep {
            r.push(cur);
            cur = Vec::new();
            assert(lines_view(r@).push(cur@) =~= split_spec(s@.subrange(0, i as int + 1), sep));
        } else {
            let ghost before = lines_view(r@).push(cur@);
            cur.push(c);
            assert(lines_view(r@).push(cur@) =~= before.update(before.len() - 1, before.last().push(c)));
        }
        i += 1;
    }
    assert(s@.subrange(0, s.len() as int) =~= s@);
    r.push(cur);
    assert(lines_view(r@) =~= split_spec(s@, sep));
    r
}

/// Joins `ls` with `sep` between each two pieces.
pub fn join_chars(ls: &Vec<Vec<char>>, sep: char) -> (r: Vec<char>)
    ensures
        r@ == join_spec(lines_view(ls@), sep),
{
    let mut r: Vec<char> = Vec::new();
    let mut i: usize = 0;
    while i < ls.len()
        invariant
            i <= ls.len(),
            r@ == join_spec(lines_view(ls@).subrange(0, i as int), sep),
        decreases ls.len() - i,
    {
        let ghost pre = lines_view(ls@).subrange(0, i as int + 1);
        assert(pre.drop_last() =~= lines_view(ls@).subrange(0, i as int));
        if i > 0 {
            r.push(sep);
        }
        let line = &ls[i];
        let mut j: usize = 0;
        let ghost base = r@;
        while j < line.len()
            invariant
                j <= line.len(),
                r@ == base + line@.subrange(0, j as int),
            decreases line.len() - j,
        {
            r.push(line[j]);
            j += 1;
            assert(r@ =~= base + line@.subrange(0, j as int));
        }
        assert(line@.subrange(0, line.len() as int) =~= line@);
        if i == 0 {
            assert(r@ =~= join_spec(pre, sep));
        }
        i += 1;
    }
    assert(lines_view(ls@).subrange(0, ls.len() as int) =~= lines_view(ls@));
    r
}


/// The lines of `s` as `str::lines` gives them: split at `'\n'`, a final
/// line ending is optional, and a `'\r'` right before a `'\n'` is dropped.
pub open spec fn lines_spec(s: Seq<char>) -> Seq<Seq<char>> {
    let p = split_spec(s, '\n');
    let k = if s.len() == 0 || s.last() == '\n' { p.len() - 1 } else { p.len() as int };
    Seq::new(k as nat, |i: int| if i < p.len() - 1 { strip_cr(p[i]) } else { p[i] })
}

pub open spec fn strip_cr(l: Seq<char>) -> Seq<char> {
    if l.len() > 0 && l.last() == '\r' {
        l.drop_last()
    } else {
        l
    }
}

/// Unicode `White_Space`, the set that `char::is_whitespace` tests.
pub open spec fn is_space(c: char) -> bool {
    ('\t' <= c && c <= '\r') || c == ' ' || c == '\u{85}' || c == '\u{a0}' || c == '\u{1680}'
        || ('\u{2000}' <= c && c <= '\u{200a}') || c == '\u{2028}' || c == '\u{2029}'
        || c == '\u{202f}' || c == '\u{205f}' || c == '\u{3000}'
}

pub open spec fn trim_end_spec(s: Seq<char>) -> Seq<char>
    decreases s.len(),
{
    if s.len() > 0 && is_space(s.last()) {
        trim_end_spec(s.drop_last())
    } else {
        s
    }
}

pub open spec fn trim_start_spec(s: Seq<char>) -> Seq<char>
    decreases s.len(),
{
    if s.len() > 0 && is_space(s[0]) {
        trim_start_spec(s.drop_first())
    } else {
        s
    }
}

/// Whitespace removed at both ends.
pub open spec fn trim_spec(s: Seq<char>) -> Seq<char> {
    trim_start_spec(trim_end_spec(s))
}

pub fn is_space_char(c: char) -> (r: bool)
    ensures
        r == is_space(c),
{
    ('\t' <= c && c <= '\r') || c == ' ' || c == '\u{85}' || c == '\u{a0}' || c == '\u{1680}'
        || ('\u{2000}' <= c && c <= '\u{200a}') || c == '\u{2028}' || c == '\u{2029}'
        || c == '\u{202f}' || c == '\u{205f}' || c == '\u{3000}'
}

/// `s` without trailing whitespace.
pub fn trim_end_chars(s: &Vec<char>) -> (r: Vec<char>)
    ensures
        r@ == trim_end_spec(s@),
{
    let mut k: usize = s.len();
    assert(s@.subrange(0, k as int) =~= s@);
    while k > 0 && is_space_char(s[k - 1])
        invariant
            k <= s.len(),
            trim_end_spec(s@) == trim_end_spec(s@.subrange(0, k as int)),
        decreases k,
    {
        assert(s@.subrange(0, k as int).drop_last() =~= s@.subrange(0, k - 1));
        k -= 1;
    }
    let mut r: Vec<char> = Vec::new();
    let mut i: usize = 0;
    while i < k
        invariant
            i <= k <= s.len(),
            r@ == s@.subrange(0, i as int),
        decreases k - i,
    {
        r.push(s[i]);
        i += 1;
        assert(r@ =~= s@.subrange(0, i as int));
    }
    r
}

/// `s` without whitespace at either end.
pub fn trim_chars(s: &Vec<char>) -> (r: Vec<char>)
    ensures
        r@ == trim_spec(s@),
{
    let t = trim_end_chars(s);
    let mut k: usize = 0;
    assert(t@.subrange(0, t.len() as int) =~= t@);
    while k < t.len() && is_space_char(t[k])
        invariant
            k <= t.len(),
            trim_start_spec(t@) == trim_start_spec(t@.subrange(k as int, t.len() as int)),
        decreases t.len() - k,
    {
        assert(t@.subrange(k as int, t.len() as int).drop_first() =~= t@.subrange(k + 1, t.len() as int));
        k += 1;
    }
    let mut r: Vec<char> = Vec::new();
    let mut i: usize = k;
    while i < t.len()
        invariant
            k <= i <= t.len(),
            r@ == t@.subrange(k as int, i as int),
        decreases t.len() - i,
    {
        r.push(t[i]);
        i += 1;
        assert(r@ =~= t@.subrange(k as int, i as int));
    }
    r
}

/// The lines of `s`, as `str::lines` splits them.
pub fn lines_chars(s: &Vec<char>) -> (r: Vec<Vec<char>>)
    ensures
        lines_view(r@) == lines_spec(s@),
{
    let parts = split_chars(s, '\n');
    proof { lemma_split_nonempty(s@, '\n'); }
    let k: usize = if s.len() == 0 || s[s.len() - 1] == '\n' { parts.len() - 1 } else { parts.len() };
    let mut r: Vec<Vec<char>> = Vec::new();
    let mut i: usize = 0;
    assert(lines_spec(s@).len() == k);
    while i < k
        invariant
            i <= k <= parts.len(),
            lines_view(parts@) == split_spec(s@, '\n'),
            k == (if s@.len() == 0 || s@.last() == '\n' { parts.len() - 1 } else { parts.len() as int }),
            lines_view(r@) == lines_spec(s@).subrange(0, i as int),
            lines_spec(s@).len() == k,
            r@.len() == i,
        decreases k - i,
    {
        let p = &parts[i];
        let mut line = copy_chars(p);
        if i + 1 < parts.len() && line.len() > 0 && line[line.len() - 1] == '\r' {
            line.pop();
        }
        assert(line@ == lines_spec(s@)[i as int]);
        let ghost prev = lines_view(r@);
        let ghost lv = line@;
        r.push(line);
        assert(r@[i as int]@ == lv);
        assert(lines_view(r@) =~= prev.push(lv));
        i += 1;
        assert(lines_view(r@) =~= lines_spec(s@).subrange(0, i as int));
    }
    assert(lines_view(r@) =~= lines_spec(s@));
    r
}

/// Decimal digits of `n`, without leading zeros.
pub open spec fn decimal(n: nat) -> Seq<char>
    decreases n,
{
    if n < 10 {
        seq![digit_char(n)]
    } else {
        decimal(n / 10).push(digit_char(n % 10))
    }
}

pub open spec fn digit_char(d: nat) -> char {
    if d == 0 { '0' } else if d == 1 { '1' } else if d == 2 { '2' } else if d == 3 { '3' }
    else if d == 4 { '4' } else if d == 5 { '5' } else if d == 6 { '6' } else if d == 7 { '7' }
    else if d == 8 { '8' } else { '9' }
}

/// `n` spaces.
pub open spec fn spaces(n: nat) -> Seq<char> {
    Seq::new(n, |i: int| ' ')
}

/// `s` right-aligned in a field of `w` characters, as `{:w}` renders a number.
pub open spec fn pad_left(s: Seq<char>, w: nat) -> Seq<char> {
    if s.len() < w { spaces((w - s.len()) as nat) + s } else { s }
}

fn digit_of(d: u128) -> (c: char)
    requires
        d < 10,
    ensures
        c == digit_char(d as nat),
{
    if d == 0 { '0' } else if d == 1 { '1' } else if d == 2 { '2' } else if d == 3 { '3' }
    else if d == 4 { '4' } else if d == 5 { '5' } else if d == 6 { '6' } else if d == 7 { '7' }
    else if d == 8 { '8' } else { '9' }
}

/// Appends the decimal digits of `n` to `out`.
pub fn push_decimal(out: &mut Vec<char>, n: u128)
    ensures
        final(out)@ == old(out)@ + decimal(n as nat),
    decreases n,
{
    if n < 10 {
        out.push(digit_of(n));
        assert(final(out)@ =~= old(out)@ + decimal(n as nat)) by { }
    } else {
        push_decimal(out, n / 10);
        out.push(digit_of(n % 10));
        assert(out@ =~= old(out)@ + decimal(n as nat));
    }
}

/// Appends `s` to `out`.
pub fn push_all(out: &mut Vec<char>, s: &Vec<char>)
    ensures
        final(out)@ == old(out)@ + s@,
{
    let mut i: usize = 0;
    while i < s.len()
        invariant
            i <= s.len(),
            out@ == old(out)@ + s@.subrange(0, i as int),
        decreases s.len() - i,
    {
        out.push(s[i]);
        i += 1;
        assert(out@ =~= old(out)@ + s@.subrange(0, i as int));
    }
    assert(s@.subrange(0, s.len() as int) =~= s@);
}

/// Appends the characters of `s` to `out`.
pub fn push_str_chars(out: &mut Vec<char>, s: &str)
    ensures
        final(out)@ == old(out)@ + s@,
{
    let v = chars_of(s);
    push_all(out, &v);
}

/// Appends `n` right-aligned in a field of `w` characters.
pub fn push_padded(out: &mut Vec<char>, n: u128, w: usize)
    ensures
        final(out)@ == old(out)@ + pad_left(decimal(n as nat), w as nat),
{
    let mut d: Vec<char> = Vec::new();
    push_decimal(&mut d, n);
    assert(d@ =~= decimal(n as nat));
    if d.len() < w {
        let mut k: usize = 0;
        let pad = w - d.len();
        while k < pad
            invariant
                k <= pad,
                out@ == old(out)@ + spaces(k as nat),
            decreases pad - k,
        {
            out.push(' ');
            k += 1;
            assert(out@ =~= old(out)@ + spaces(k as nat));
        }
    }
    push_all(out, &d);
    assert(out@ =~= old(out)@ + pad_left(decimal(n as nat), w as nat));
}

/// Whether `s` begins with `p`.
pub fn starts_with_chars(s: &Vec<char>, p: &Vec<char>) -> (r: bool)
    ensures
        r == (p@.len() <= s@.len() && s@.subrange(0, p@.len() as int) == p@),
{
    if p.len() > s.len() {
        return false;
    }
    let mut i: usize = 0;
    while i < p.len()
        invariant
            i <= p.len() <= s.len(),
            s@.subrange(0, i as int) == p@.subrange(0, i as int),
        decreases p.len() - i,
    {
        if s[i] != p[i] {
            assert(s@.subrange(0, p@.len() as int)[i as int] != p@[i as int]);
            return false;
        }
        i += 1;
        assert(s@.subrange(0, i as int) =~= p@.subrange(0, i as int));
    }
    assert(p@.subrange(0, p@.len() as int) =~= p@);
    true
}

/// Whether `a` and `b` hold the same characters.
pub fn eq_chars(a: &Vec<char>, b: &Vec<char>) -> (r: bool)
    ensures
        r == (a@ == b@),
{
    if a.len() != b.len() {
        return false;
    }
    let mut i: usize = 0;
    while i < a.len()
        invariant
            i <= a.len() == b.len(),
            a@.subrange(0, i as int) == b@.subrange(0, i as int),
        decreases a.len() - i,
    {
        if a[i] != b[i] {
            return false;
        }
        i += 1;
        assert(a@.subrange(0, i as int) =~= b@.subrange(0, i as int));
    }
    assert(a@ =~= a@.subrange(0, a.len() as int));
    assert(b@ =~= b@.subrange(0, b.len() as int));
    true
}


/// Whether `a` and `b` hold the same characters.
pub fn str_eq(a: &str, b: &str) -> (r: bool)
    ensures
        r == (a@ == b@),
{
    let x = chars_of(a);
    let y = chars_of(b);
    eq_chars(&x, &y)
}


/// Text without separators extends the last piece.
pub proof fn lemma_split_append(x: Seq<char>, b: Seq<char>, sep: char)
    requires
        forall|i: int| 0 <= i < b.len() ==> b[i] != sep,
    ensures
        split_spec(x + b, sep) == split_spec(x, sep).update(split_spec(x, sep).len() - 1, split_spec(x, sep).last() + b),
    decreases b.len(),
{
    lemma_split_nonempty(x, sep);
    let sx = split_spec(x, sep);
    if b.len() == 0 {
        assert(x + b =~= x);
        assert(sx.last() + b =~= sx.last());
        assert(sx.update(sx.len() - 1, sx.last()) =~= sx);
    } else {
        let b0 = b.drop_last();
        lemma_split_append(x, b0, sep);
        let xb = x + b;
        assert(xb.drop_last() =~= x + b0);
        assert(xb.last() == b.last());
        let init = split_spec(x + b0, sep);
        assert((sx.last() + b0).push(b.last()) =~= sx.last() + b);
        assert(init.update(init.len() - 1, init.last().push(xb.last())) =~= sx.update(sx.len() - 1, sx.last() + b));
    }
}

/// Splitting joined pieces that hold no separator gives the pieces back.
pub proof fn lemma_split_join(ls: Seq<Seq<char>>, sep: char)
    requires
        ls.len() > 0,
        forall|i: int, j: int| 0 <= i < ls.len() && 0 <= j < ls[i].len() ==> ls[i][j] != sep,
    ensures
        split_spec(join_spec(ls, sep), sep) == ls,
    decreases ls.len(),
{
    if ls.len() == 1 {
        lemma_split_append(Seq::empty(), ls[0], sep);
        assert(Seq::<char>::empty() + ls[0] =~= ls[0]);
        assert(split_spec(Seq::<char>::empty(), sep).update(0, Seq::<char>::empty() + ls[0]) =~= ls);
    } else {
        let init = ls.drop_last();
        lemma_split_join(init, sep);
        let a = join_spec(init, sep) + seq![sep];
        assert(a.drop_last() =~= join_spec(init, sep));
        assert(split_spec(a, sep) == init.push(Seq::<char>::empty()));
        assert(forall|j: int| 0 <= j < ls.last().len() ==> ls.last()[j] != sep) by {
            assert(ls.last() == ls[ls.len() - 1]);
        }
        lemma_split_append(a, ls.last(), sep);
        assert(join_spec(ls, sep) == a + ls.last());
        assert(init.push(Seq::<char>::empty()).update(init.len() as int, Seq::<char>::empty() + ls.last()) =~= ls);
    }
}

/// Joined pieces begin with the first piece and end with the last one.
pub proof fn lemma_join_ends(ls: Seq<Seq<char>>, sep: char)
    requires
        ls.len() > 0,
    ensures
        join_spec(ls, sep).len() >= ls[0].len(),
        join_spec(ls, sep).subrange(0, ls[0].len() as int) == ls[0],
        join_spec(ls, sep).len() >= ls.last().len(),
        join_spec(ls, sep).subrange(join_spec(ls, sep).len() - ls.last().len(), join_spec(ls, sep).len() as int) == ls.last(),
    decreases ls.len(),
{
    if ls.len() == 1 {
        assert(join_spec(ls, sep).subrange(0, ls[0].len() as int) =~= ls[0]);
        assert(join_spec(ls, sep).subrange(0, ls.last().len() as int) =~= ls.last());
    } else {
        let init = ls.drop_last();
        lemma_join_ends(init, sep);
        let j = join_spec(ls, sep);
        assert(j == join_spec(init, sep) + seq![sep] + ls.last());
        assert(j.subrange(0, ls[0].len() as int) =~= join_spec(init, sep).subrange(0, init[0].len() as int));
        assert(j.subrange(j.len() - ls.last().len(), j.len() as int) =~= ls.last());
    }
}

/// Text that neither begins nor ends with whitespace is its own trim.
pub proof fn lemma_trim_id(s: Seq<char>)
    requires
        s.len() > 0,
        !is_space(s[0]),
        !is_space(s.last()),
    ensures
        trim_spec(s) == s,
{
    assert(trim_end_spec(s) == s);
    assert(trim_start_spec(s) == s);
}


/// No piece of a split holds the separator.
pub proof fn lemma_split_no_sep(s: Seq<char>, sep: char)
    ensures
        forall|i: int, j: int| 0 <= i < split_spec(s, sep).len() && 0 <= j < split_spec(s, sep)[i].len()
            ==> split_spec(s, sep)[i][j] != sep,
    decreases s.len(),
{
    if s.len() > 0 {
        lemma_split_no_sep(s.drop_last(), sep);
        lemma_split_nonempty(s.drop_last(), sep);
    }
}

/// Joining the pieces of a split gives the text back.
pub proof fn lemma_join_split(s: Seq<char>, sep: char)
    ensures
        join_spec(split_spec(s, sep), sep) == s,
    decreases s.len(),
{
    if s.len() > 0 {
        let t = s.drop_last();
        lemma_join_split(t, sep);
        lemma_split_nonempty(t, sep);
        let init = split_spec(t, sep);
        if s.last() == sep {
            assert(init.push(Seq::<char>::empty()).drop_last() =~= init);
            assert(join_spec(init.push(Seq::<char>::empty()), sep) =~= s);
        } else {
            let up = init.update(init.len() - 1, init.last().push(s.last()));
            if init.len() == 1 {
                assert(join_spec(init, sep) == init[0]);
                assert(join_spec(up, sep) =~= s);
            } else {
                assert(up.drop_last() =~= init.drop_last());
                assert(up.last() == init.last().push(s.last()));
                assert(join_spec(init, sep) == join_spec(init.drop_last(), sep) + seq![sep] + init.last());
                assert(join_spec(up, sep) == join_spec(up.drop_last(), sep) + seq![sep] + up.last());
                assert(s =~= t.push(s.last()));
                assert(join_spec(up, sep) =~= s);
            }
        }
    }
}

} // verus!
