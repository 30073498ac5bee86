//! A unified-diff style patch tool: hunks between
//! `*** Begin Patch` and `*** End Patch`, each placed at its stated line and
//! accepted when most of its old lines agree with the file.

use vstd::prelude::*;
use crate::text::{join_chars, join_spec, 
    chars_of, copy_chars, decimal, is_space, is_space_char, lines_chars, lines_spec, lines_view, push_all,
    push_decimal, push_str_chars, string_of, trim_chars, trim_spec,
};
use crate::patch::{drop_chars, starts, starts_lit, is_lit};

verus! {

/// The diff-style patch tool, working on files under `working_dir`.
#[derive(Debug, Clone)]
pub struct ApplyPatchTool {
    pub working_dir: String,
}

/// One hunk: its `@@` header and its body lines.
#[derive(Debug, Clone)]
pub struct Hunk {
    pub header: Vec<char>,
    pub lines: Vec<Vec<char>>,
}

/// The hunks for one file.
#[derive(Debug, Clone)]
pub struct FilePatch {
    pub old_path: Vec<char>,
    pub new_path: Vec<char>,
    pub hunks: Vec<Hunk>,
}

/// The whitespace-separated words of `s[i..]`, after the partial word
/// `cur` and the words `acc` already read.
pub open spec fn words_from(s: Seq<char>, i: int, cur: Seq<char>, acc: Seq<Seq<char>>) -> Seq<Seq<char>>
    decreases s.len() - i,
{
    if i < 0 || i >= s.len() {
        if cur.len() > 0 { acc.push(cur) } else { acc }
    } else if is_space(s[i]) {
        words_from(s, i + 1, Seq::empty(), if cur.len() > 0 { acc.push(cur) } else { acc })
    } else {
        words_from(s, i + 1, cur.push(s[i]), acc)
    }
}

/// The words of `s`, as `str::split_whitespace` gives them.
pub open spec fn words(s: Seq<char>) -> Seq<Seq<char>> {
    words_from(s, 0, Seq::empty(), Seq::empty())
}

fn words_exec(s: &Vec<char>) -> (r: Vec<Vec<char>>)
    ensures
        lines_view(r@) == words(s@),
{
    let mut acc: Vec<Vec<char>> = Vec::new();
    let mut cur: Vec<char> = Vec::new();
    let mut i: usize = 0;
    assert(lines_view(acc@) =~= Seq::<Seq<char>>::empty());
    while i < s.len()
        invariant
            i <= s.len(),
            words(s@) == words_from(s@, i as int, cur@, lines_view(acc@)),
        decreases s.len() - i,
    {
        if is_space_char(s[i]) {
            if cur.len() > 0 {
                let ghost prev = lines_view(acc@);
                let ghost cv = cur@;
                acc.push(cur);
                assert(lines_view(acc@) =~= prev.push(cv));
                cur = Vec::new();
            } else {
                cur = Vec::new();
            }
            assert(cur@ =~= Seq::<char>::empty());
        } else {
            cur.push(s[i]);
        }
        i += 1;
    }
    if cur.len() > 0 {
        let ghost prev = lines_view(acc@);
        let ghost cv = cur@;
        acc.push(cur);
        assert(lines_view(acc@) =~= prev.push(cv));
    }
    acc
}

/// `s` without its leading `'-'` characters.
pub open spec fn strip_dashes(s: Seq<char>) -> Seq<char>
    decreases s.len(),
{
    if s.len() > 0 && s[0] == '-' { strip_dashes(s.drop_first()) } else { s }
}

/// `s` up to its first `','`.
pub open spec fn before_comma(s: Seq<char>) -> Seq<char>
    decreases s.len(),
{
    if s.len() == 0 { s } else if s[0] == ',' { Seq::empty() } else { seq![s[0]] + before_comma(s.drop_first()) }
}

pub open spec fn digit_val(c: char) -> int {
    c as int - '0' as int
}

/// The value of the decimal digits `s`.
pub open spec fn digits_value(s: Seq<char>) -> int
    decreases s.len(),
{
    if s.len() == 0 { 0 } else { digits_value(s.drop_last()) * 10 + digit_val(s.last()) }
}

pub open spec fn all_digits(s: Seq<char>) -> bool {
    forall|i: int| 0 <= i < s.len() ==> '0' <= #[trigger] s[i] && s[i] <= '9'
}

/// `s` read as a `usize` the way `str::parse` reads one: an optional `+`,
/// then at least one decimal digit, with a value that fits.
pub open spec fn parse_usize_spec(s: Seq<char>) -> Option<int> {
    let d = if s.len() > 0 && s[0] == '+' { s.drop_first() } else { s };
    if d.len() > 0 && all_digits(d) && digits_value(d) <= usize::MAX { Some(digits_value(d)) } else { None }
}

fn parse_usize(s: &Vec<char>) -> (r: Option<usize>)
    ensures
        r matches Some(v) ==> parse_usize_spec(s@) == Some(v as int),
        r is None ==> parse_usize_spec(s@) is None,
{
    let start: usize = if s.len() > 0 && s[0] == '+' { 1 } else { 0 };
    let ghost d = if s@.len() > 0 && s@[0] == '+' { s@.drop_first() } else { s@ };
    assert(d =~= s@.subrange(start as int, s@.len() as int));
    assert(parse_usize_spec(s@) == (if d.len() > 0 && all_digits(d) && digits_value(d) <= usize::MAX { Some(digits_value(d)) } else { None }));
    if start >= s.len() {
        return None;
    }
    let mut v: u128 = 0;
    let mut i: usize = start;
    while i < s.len()
        invariant
            start <= i <= s.len(),
            d == s@.subrange(start as int, s@.len() as int),
            parse_usize_spec(s@) == (if d.len() > 0 && all_digits(d) && digits_value(d) <= usize::MAX { Some(digits_value(d)) } else { None }),
            all_digits(s@.subrange(start as int, i as int)),
            v as int == digits_value(s@.subrange(start as int, i as int)),
            v <= usize::MAX,
        decreases s.len() - i,
    {
        let c = s[i];
        assert(s@.subrange(start as int, i + 1).drop_last() =~= s@.subrange(start as int, i as int));
        if c < '0' || c > '9' {
            assert(!all_digits(d)) by {
                assert(d[i - start] == c);
            }
            assert(parse_usize_spec(s@) is None);
            return None;
        }
        let dv = (c as u32 - '0' as u32) as u128;
        v = v * 10 + dv;
        i += 1;
        if v > usize::MAX as u128 {
            proof {
                lemma_digits_grow(d, (i - start) as int);
                assert(d.subrange(0, (i - start) as int) =~= s@.subrange(start as int, i as int));
            }
            assert(parse_usize_spec(s@) is None);
            return None;
        }
    }
    assert(s@.subrange(start as int, s@.len() as int) =~= d);
    Some(v as usize)
}

/// A longer run of digits never has a smaller value than its prefix.
proof fn lemma_digits_grow(d: Seq<char>, k: int)
    requires
        0 <= k <= d.len(),
    ensures
        all_digits(d) ==> digits_value(d) >= digits_value(d.subrange(0, k)),
    decreases d.len() - k,
{
    if k < d.len() && all_digits(d) {
        lemma_digits_grow(d.drop_last(), if k <= d.len() - 1 { k } else { d.len() - 1 });
        assert(d.drop_last().subrange(0, k) =~= d.subrange(0, k));
        assert(all_digits(d.drop_last()));
        lemma_digits_nonneg(d.drop_last());
        assert('0' <= d.last() && d.last() <= '9');
    }
    if k == d.len() {
        assert(d.subrange(0, k) =~= d);
    }
}

proof fn lemma_digits_nonneg(d: Seq<char>)
    requires
        all_digits(d),
    ensures
        digits_value(d) >= 0,
    decreases d.len(),
{
    if d.len() > 0 {
        assert(all_digits(d.drop_last()));
        lemma_digits_nonneg(d.drop_last());
        assert('0' <= d.last());
    }
}


/// The old-side and new-side lines of a hunk body: empty lines are skipped,
/// `-` lines are old only, `+` lines new only, ` ` lines both, and any other
/// line is ignored.
pub open spec fn hunk_sides(hl: Seq<Seq<char>>) -> (Seq<Seq<char>>, Seq<Seq<char>>)
    decreases hl.len(),
{
    if hl.len() == 0 {
        (Seq::empty(), Seq::empty())
    } else {
        let p = hunk_sides(hl.drop_last());
        let l = hl.last();
        if l.len() == 0 {
            p
        } else if l[0] == '-' {
            (p.0.push(l.drop_first()), p.1)
        } else if l[0] == '+' {
            (p.0, p.1.push(l.drop_first()))
        } else if l[0] == ' ' {
            (p.0.push(l.drop_first()), p.1.push(l.drop_first()))
        } else {
            p
        }
    }
}

/// How many of the first `k` lines of `exp` and `act` agree up to
/// surrounding whitespace.
pub open spec fn count_agree(exp: Seq<Seq<char>>, act: Seq<Seq<char>>, k: int) -> nat
    decreases k,
{
    if k <= 0 {
        0
    } else {
        count_agree(exp, act, k - 1) + if trim_spec(exp[k - 1]) == trim_spec(act[k - 1]) { 1nat } else { 0nat }
    }
}

pub open spec fn sat_sub(a: int, b: int) -> int {
    if a >= b { a - b } else { 0 }
}

pub open spec fn min(a: int, b: int) -> int {
    if a < b { a } else { b }
}

/// The file's lines after one hunk: the hunk's old lines are compared with
/// the file from its stated line (1-based) on; unless fewer than 70% of them
/// agree up to whitespace, that stretch is replaced by the hunk's new lines.
/// A hunk stated past the end of the file is appended.
pub open spec fn apply_hunk_spec(lines: Seq<Seq<char>>, header: Seq<char>, body: Seq<Seq<char>>) -> Result<Seq<Seq<char>>, Seq<char>> {
    let parts = words(header);
    if parts.len() < 3 {
        Err("Invalid hunk header: "@ + header)
    } else {
        match parse_usize_spec(before_comma(strip_dashes(parts[1]))) {
            None => Err("Invalid old line number"@),
            Some(old_start) => {
                let sides = hunk_sides(body);
                let exp = sides.0;
                let n = lines.len() as int;
                let start = sat_sub(old_start, 1);
                let end = min(start + exp.len(), n);
                let act = if start < n { lines.subrange(start, end) } else { Seq::empty() };
                let m = count_agree(exp, act, min(exp.len() as int, act.len() as int));
                if exp.len() > 0 && 10 * m < 7 * exp.len() {
                    Err("Hunk does not match file content ("@ + decimal((m * 100 / exp.len()) as nat) + "% match)"@)
                } else {
                    let s2 = min(start, n);
                    Ok(lines.subrange(0, s2) + sides.1 + lines.subrange(if end > s2 { end } else { s2 }, n))
                }
            },
        }
    }
}

fn strip_dashes_exec(s: &Vec<char>) -> (r: Vec<char>)
    ensures
        r@ == strip_dashes(s@),
{
    let mut k: usize = 0;
    assert(s@.subrange(0, s.len() as int) =~= s@);
    while k < s.len() && s[k] == '-'
        invariant
            k <= s.len(),
            strip_dashes(s@) == strip_dashes(s@.subrange(k as int, s.len() as int)),
        decreases s.len() - k,
    {
        assert(s@.subrange(k as int, s.len() as int).drop_first() =~= s@.subrange(k + 1, s.len() as int));
        k += 1;
    }
    drop_chars(s, k)
}

fn before_comma_exec(s: &Vec<char>) -> (r: Vec<char>)
    ensures
        r@ == before_comma(s@),
{
    let mut k: usize = 0;
    while k < s.len() && s[k] != ','
        invariant
            k <= s.len(),
            forall|j: int| 0 <= j < k ==> s@[j] != ',',
        decreases s.len() - k,
    {
        k += 1;
    }
    let mut r: Vec<char> = Vec::new();
    let mut i: usize = 0;
    while i < k
        invariant
            i <= k <= s.len(),
            r@ == s@.subrange(0, i as int),
        decreases k - i,
    {
        r.push(s[i]);
        i += 1;
        assert(r@ =~= s@.subrange(0, i as int));
    }
    proof { lemma_before_comma(s@, k as int); }
    r
}

proof fn lemma_before_comma(s: Seq<char>, k: int)
    requires
        0 <= k <= s.len(),
        forall|j: int| 0 <= j < k ==> s[j] != ',',
        k == s.len() || s[k] == ',',
    ensures
        before_comma(s) == s.subrange(0, k),
    decreases s.len(),
{
    if s.len() > 0 && k > 0 {
        lemma_before_comma(s.drop_first(), k - 1);
        assert(s.subrange(0, k) =~= seq![s[0]] + s.drop_first().subrange(0, k - 1));
    } else if s.len() > 0 {
        assert(s.subrange(0, k) =~= Seq::<char>::empty());
    } else {
        assert(s.subrange(0, k) =~= s);
    }
}

fn hunk_sides_exec(body: &Vec<Vec<char>>) -> (r: (Vec<Vec<char>>, Vec<Vec<char>>))
    ensures
        (lines_view(r.0@), lines_view(r.1@)) == hunk_sides(lines_view(body@)),
{
    let ghost bv = lines_view(body@);
    let mut exp: Vec<Vec<char>> = Vec::new();
    let mut new: Vec<Vec<char>> = Vec::new();
    let mut i: usize = 0;
    assert(bv.subrange(0, 0) =~= Seq::<Seq<char>>::empty());
    assert(lines_view(exp@) =~= Seq::<Seq<char>>::empty());
    assert(lines_view(new@) =~= Seq::<Seq<char>>::empty());
    while i < body.len()
        invariant
            i <= body.len(),
            bv == lines_view(body@),
            (lines_view(exp@), lines_view(new@)) == hunk_sides(bv.subrange(0, i as int)),
        decreases body.len() - i,
    {
        let l = &body[i];
        assert(bv.subrange(0, i + 1).drop_last() =~= bv.subrange(0, i as int));
        if l.len() > 0 {
            let c = l[0];
            if c == '-' || c == '+' || c == ' ' {
                let content = drop_chars(l, 1);
                assert(content@ =~= l@.drop_first());
                if c == '-' || c == ' ' {
                    let ghost prev = lines_view(exp@);
                    let cc = copy_chars(&content);
                    exp.push(cc);
                    assert(lines_view(exp@) =~= prev.push(l@.drop_first()));
                }
                if c == '+' || c == ' ' {
                    let ghost prev = lines_view(new@);
                    new.push(content);
                    assert(lines_view(new@) =~= prev.push(l@.drop_first()));
                }
            }
        }
        i += 1;
    }
    assert(bv.subrange(0, body.len() as int) =~= bv);
    (exp, new)
}

fn count_agree_exec(exp: &Vec<Vec<char>>, lines: &Vec<Vec<char>>, start: usize, k: usize) -> (r: usize)
    requires
        k <= exp.len(),
        start + k <= lines.len(),
    ensures
        r as int == count_agree(lines_view(exp@), lines_view(lines@).subrange(start as int, start + k), k as int),
        r <= k,
{
    let ghost act = lines_view(lines@).subrange(start as int, start + k);
    let mut m: usize = 0;
    let mut j: usize = 0;
    while j < k
        invariant
            j <= k <= exp.len(),
            start + k <= lines.len(),
            act == lines_view(lines@).subrange(start as int, start + k),
            m as int == count_agree(lines_view(exp@), act, j as int),
            m <= j,
        decreases k - j,
    {
        let a = trim_chars(&exp[j]);
        let b = trim_chars(&lines[start + j]);
        assert(act[j as int] == lines_view(lines@)[start + j]);
        if crate::text::eq_chars(&a, &b) {
            m += 1;
        }
        j += 1;
    }
    m
}

impl ApplyPatchTool {
    /// A tool working on files under `working_dir`.
    pub fn new(working_dir: String) -> (r: Self)
        ensures
            r.working_dir == working_dir,
    {
        ApplyPatchTool { working_dir }
    }

    /// Applies one hunk to the file's lines `lines`.
    pub fn apply_hunk(&self, lines: &mut Vec<Vec<char>>, hunk: &Hunk) -> (r: Result<(), String>)
        ensures
            match r {
                Ok(_) => apply_hunk_spec(lines_view(old(lines)@), hunk.header@, lines_view(hunk.lines@)) == Ok::<Seq<Seq<char>>, Seq<char>>(lines_view(final(lines)@)),
                Err(e) => apply_hunk_spec(lines_view(old(lines)@), hunk.header@, lines_view(hunk.lines@)) == Err::<Seq<Seq<char>>, Seq<char>>(e@),
            },
    {
        let parts = words_exec(&hunk.header);
        if parts.len() < 3 {
            let mut m: Vec<char> = Vec::new();
            push_str_chars(&mut m, "Invalid hunk header: ");
            push_all(&mut m, &hunk.header);
            return Err(string_of(&m));
        }
        let range = before_comma_exec(&strip_dashes_exec(&parts[1]));
        let old_start = match parse_usize(&range) {
            Some(v) => v,
            None => { return Err(string_of(&chars_of("Invalid old line number"))); },
        };
        let (exp, new) = hunk_sides_exec(&hunk.lines);
        let n = lines.len();
        let start: usize = if old_start >= 1 { old_start - 1 } else { 0 };
        let end: usize = if exp.len() < n && start < n - exp.len() { start + exp.len() } else { n };
        let alen: usize = if start < n { end - start } else { 0 };
        let k: usize = if exp.len() < alen { exp.len() } else { alen };
        let m: usize = if start < n { count_agree_exec(&exp, lines, start, k) } else { 0 };
        proof {
            let act = if start < n { lines_view(lines@).subrange(start as int, end as int) } else { Seq::empty() };
            assert(act.len() == alen);
            if start < n {
                assert(lines_view(lines@).subrange(start as int, start + k) =~= act.subrange(0, k as int));
                lemma_count_prefix(lines_view(exp@), act, k as int);
            }
        }
        if exp.len() > 0 && (m as u128) * 10 < 7 * (exp.len() as u128) {
            let mut msg: Vec<char> = Vec::new();
            push_str_chars(&mut msg, "Hunk does not match file content (");
            push_decimal(&mut msg, (m as u128) * 100 / (exp.len() as u128));
            push_str_chars(&mut msg, "% match)");
            return Err(string_of(&msg));
        }
        let s2: usize = if start < n { start } else { n };
        let e2: usize = if end > s2 { end } else { s2 };
        let mut out: Vec<Vec<char>> = Vec::new();
        let mut i: usize = 0;
        while i < s2
            invariant
                i <= s2 <= n == lines.len(),
                lines_view(out@) == lines_view(lines@).subrange(0, i as int),
            decreases s2 - i,
        {
            let ghost prev = lines_view(out@);
            let l = copy_chars(&lines[i]);
            let ghost lv = l@;
            out.push(l);
            assert(lines_view(out@) =~= prev.push(lv));
            i += 1;
            assert(lines_view(out@) =~= lines_view(lines@).subrange(0, i as int));
        }
        let ghost base = lines_view(out@);
        let mut j: usize = 0;
        while j < new.len()
            invariant
                j <= new.len(),
                lines_view(out@) == base + lines_view(new@).subrange(0, j as int),
            decreases new.len() - j,
        {
            let ghost prev = lines_view(out@);
            let l = copy_chars(&new[j]);
            let ghost lv = l@;
            out.push(l);
            assert(lines_view(out@) =~= prev.push(lv));
            j += 1;
            assert(lines_view(out@) =~= base + lines_view(new@).subrange(0, j as int));
        }
        assert(lines_view(new@).subrange(0, new.len() as int) =~= lines_view(new@));
        let ghost base2 = lines_view(out@);
        let mut t: usize = e2;
        while t < n
            invariant
                e2 <= t <= n == lines.len(),
                lines_view(out@) == base2 + lines_view(lines@).subrange(e2 as int, t as int),
            decreases n - t,
        {
            let ghost prev = lines_view(out@);
            let l = copy_chars(&lines[t]);
            let ghost lv = l@;
            out.push(l);
            assert(lines_view(out@) =~= prev.push(lv));
            t += 1;
            assert(lines_view(out@) =~= base2 + lines_view(lines@).subrange(e2 as int, t as int));
        }
        *lines = out;
        Ok(())
    }
}

proof fn lemma_count_prefix(exp: Seq<Seq<char>>, act: Seq<Seq<char>>, k: int)
    requires
        0 <= k <= act.len(),
    ensures
        count_agree(exp, act.subrange(0, k), k) == count_agree(exp, act, k),
    decreases k,
{
    if k > 0 {
        lemma_count_prefix(exp, act, k - 1);
        lemma_count_shrink(exp, act.subrange(0, k), act.subrange(0, k - 1), k - 1);
    }
}

proof fn lemma_count_shrink(exp: Seq<Seq<char>>, a: Seq<Seq<char>>, b: Seq<Seq<char>>, k: int)
    requires
        0 <= k <= b.len(),
        k <= a.len(),
        forall|j: int| 0 <= j < k ==> a[j] == b[j],
    ensures
        count_agree(exp, a, k) == count_agree(exp, b, k),
    decreases k,
{
    if k > 0 {
        lemma_count_shrink(exp, a, b, k - 1);
    }
}


/// A hunk as the parser reads it: its header and body lines.
pub ghost struct HunkSpec {
    pub header: Seq<char>,
    pub lines: Seq<Seq<char>>,
}

/// The hunks for one file, as the parser reads them.
pub ghost struct FilePatchSpec {
    pub old_path: Seq<char>,
    pub new_path: Seq<char>,
    pub hunks: Seq<HunkSpec>,
}

impl Hunk {
    pub open spec fn view(&self) -> HunkSpec {
        HunkSpec { header: self.header@, lines: lines_view(self.lines@) }
    }
}

impl FilePatch {
    pub open spec fn view(&self) -> FilePatchSpec {
        FilePatchSpec { old_path: self.old_path@, new_path: self.new_path@, hunks: Seq::new(self.hunks@.len(), |i: int| self.hunks@[i].view()) }
    }
}

pub open spec fn is_end_marker(l: Seq<char>) -> bool {
    trim_spec(l) == "*** End Patch"@
}

/// Where the body of a hunk starting at line `i` ends.
pub open spec fn body_end(lines: Seq<Seq<char>>, i: int) -> int
    decreases lines.len() - i,
{
    if i < 0 || i >= lines.len() || starts(lines[i], "@@"@) || starts(lines[i], "---"@) || is_end_marker(lines[i]) {
        i
    } else {
        body_end(lines, i + 1)
    }
}

proof fn lemma_body_end(lines: Seq<Seq<char>>, i: int)
    requires
        0 <= i,
    ensures
        i <= body_end(lines, i),
        i <= lines.len() ==> body_end(lines, i) <= lines.len(),
    decreases lines.len() - i,
{
    if i < lines.len() && !(starts(lines[i], "@@"@) || starts(lines[i], "---"@) || is_end_marker(lines[i])) {
        lemma_body_end(lines, i + 1);
    }
}

/// The hunks of one file from line `i` on, until the next `---` line or
/// the end marker; lines outside a hunk are skipped.
pub open spec fn hunks_from(lines: Seq<Seq<char>>, i: int, acc: Seq<HunkSpec>) -> (Seq<HunkSpec>, int)
    decreases lines.len() - i,
{
    if i < 0 || i >= lines.len() || starts(lines[i], "---"@) || is_end_marker(lines[i]) {
        (acc, i)
    } else if starts(lines[i], "@@ "@) {
        let j = body_end(lines, i + 1);
        if j > i && j <= lines.len() {
            hunks_from(lines, j, acc.push(HunkSpec { header: lines[i], lines: lines.subrange(i + 1, j) }))
        } else {
            (acc, i)
        }
    } else {
        hunks_from(lines, i + 1, acc)
    }
}

/// `s` without the prefix `p`, if it has it.
pub open spec fn strip_opt(s: Seq<char>, p: Seq<char>) -> Seq<char> {
    if starts(s, p) { s.subrange(p.len() as int, s.len() as int) } else { s }
}

/// The file patches from line `i` on, until the end marker.
pub open spec fn files_from(lines: Seq<Seq<char>>, i: int, acc: Seq<FilePatchSpec>) -> Result<Seq<FilePatchSpec>, Seq<char>>
    decreases lines.len() - i,
{
    if i < 0 || i >= lines.len() || is_end_marker(lines[i]) {
        Ok(acc)
    } else if starts(lines[i], "--- "@) {
        let old_path = trim_spec(strip_opt(lines[i].subrange("--- "@.len() as int, lines[i].len() as int), "a/"@));
        if i + 1 >= lines.len() || !starts(lines[i + 1], "+++ "@) {
            Err("Expected '+++ ' line after '--- ' line"@)
        } else {
            let new_path = trim_spec(strip_opt(lines[i + 1].subrange("+++ "@.len() as int, lines[i + 1].len() as int), "b/"@));
            let h = hunks_from(lines, i + 2, Seq::empty());
            if h.1 > i && h.1 <= lines.len() {
                files_from(lines, h.1, acc.push(FilePatchSpec { old_path, new_path, hunks: h.0 }))
            } else {
                Err(Seq::empty())
            }
        }
    } else {
        files_from(lines, i + 1, acc)
    }
}

/// The first line at or after `i` that reads `*** Begin Patch` up to
/// surrounding whitespace.
pub open spec fn begin_from(lines: Seq<Seq<char>>, i: int) -> int
    decreases lines.len() - i,
{
    if i < 0 || i >= lines.len() { lines.len() as int } else if trim_spec(lines[i]) == "*** Begin Patch"@ { i } else { begin_from(lines, i + 1) }
}

/// The file patches of `text`: after the `*** Begin Patch` line, each
/// `--- a/old` / `+++ b/new` pair with its `@@` hunks, until
/// `*** End Patch`.
pub open spec fn parse_patch_spec(text: Seq<char>) -> Result<Seq<FilePatchSpec>, Seq<char>> {
    let lines = lines_spec(text);
    let b = begin_from(lines, 0);
    if b + 1 >= lines.len() {
        Err("Patch must start with '*** Begin Patch'"@)
    } else {
        match files_from(lines, b + 1, Seq::empty()) {
            Err(e) => Err(e),
            Ok(fs) => if fs.len() == 0 { Err("No valid patches found in input"@) } else { Ok(fs) },
        }
    }
}

fn is_end_line(l: &Vec<char>) -> (r: bool)
    ensures
        r == is_end_marker(l@),
{
    is_lit(&trim_chars(l), "*** End Patch")
}

fn strip_opt_exec(s: &Vec<char>, p: &str) -> (r: Vec<char>)
    ensures
        r@ == strip_opt(s@, p@),
{
    if starts_lit(s, p) {
        let n = chars_of(p).len();
        drop_chars(s, n)
    } else {
        copy_chars(s)
    }
}

pub open spec fn files_view(v: Seq<FilePatch>) -> Seq<FilePatchSpec> {
    Seq::new(v.len(), |i: int| v[i].view())
}

pub open spec fn hunks_view(v: Seq<Hunk>) -> Seq<HunkSpec> {
    Seq::new(v.len(), |i: int| v[i].view())
}

fn copy_range(lines: &Vec<Vec<char>>, from: usize, to: usize) -> (r: Vec<Vec<char>>)
    requires
        from <= to <= lines.len(),
    ensures
        lines_view(r@) == lines_view(lines@).subrange(from as int, to as int),
{
    let mut out: Vec<Vec<char>> = Vec::new();
    let mut i: usize = from;
    while i < to
        invariant
            from <= i <= to <= lines.len(),
            lines_view(out@) == lines_view(lines@).subrange(from as int, i as int),
        decreases to - i,
    {
        let ghost prev = lines_view(out@);
        let l = copy_chars(&lines[i]);
        let ghost lv = l@;
        out.push(l);
        assert(lines_view(out@) =~= prev.push(lv));
        i += 1;
        assert(lines_view(out@) =~= lines_view(lines@).subrange(from as int, i as int));
    }
    out
}

fn read_hunks(lines: &Vec<Vec<char>>, start: usize) -> (r: (Vec<Hunk>, usize))
    requires
        start <= lines.len(),
    ensures
        hunks_from(lines_view(lines@), start as int, Seq::empty()) == (hunks_view(r.0@), r.1 as int),
        start <= r.1 <= lines.len(),
{
    let ghost lv = lines_view(lines@);
    let mut hunks: Vec<Hunk> = Vec::new();
    let mut i: usize = start;
    assert(hunks_view(hunks@) =~= Seq::<HunkSpec>::empty());
    while i < lines.len() && !starts_lit(&lines[i], "---") && !is_end_line(&lines[i])
        invariant
            start <= i <= lines.len(),
            lv == lines_view(lines@),
            hunks_from(lv, start as int, Seq::empty()) == hunks_from(lv, i as int, hunks_view(hunks@)),
        decreases lines.len() - i,
    {
        if starts_lit(&lines[i], "@@ ") {
            let mut j: usize = i + 1;
            while j < lines.len() && !starts_lit(&lines[j], "@@") && !starts_lit(&lines[j], "---") && !is_end_line(&lines[j])
                invariant
                    i < j <= lines.len(),
                    lv == lines_view(lines@),
                    body_end(lv, i + 1) == body_end(lv, j as int),
                decreases lines.len() - j,
            {
                j += 1;
            }
            let h = Hunk { header: copy_chars(&lines[i]), lines: copy_range(lines, i + 1, j) };
            let ghost prev = hunks_view(hunks@);
            hunks.push(h);
            assert(hunks_view(hunks@) =~= prev.push(h.view()));
            i = j;
        } else {
            i += 1;
        }
    }
    (hunks, i)
}

impl ApplyPatchTool {
    /// Parses `patch_text` into its file patches.
    pub fn parse_patch(&self, patch_text: &str) -> (r: Result<Vec<FilePatch>, String>)
        ensures
            match r {
                Ok(v) => parse_patch_spec(patch_text@) == Ok::<Seq<FilePatchSpec>, Seq<char>>(files_view(v@)),
                Err(e) => parse_patch_spec(patch_text@) == Err::<Seq<FilePatchSpec>, Seq<char>>(e@),
            },
    {
        let lines = lines_chars(&chars_of(patch_text));
        let ghost lv = lines_view(lines@);
        let n = lines.len();
        let mut i: usize = 0;
        while i < n && !is_lit(&trim_chars(&lines[i]), "*** Begin Patch")
            invariant
                i <= n == lines.len(),
                lv == lines_view(lines@),
                begin_from(lv, 0) == begin_from(lv, i as int),
            decreases n - i,
        {
            i += 1;
        }
        if n == 0 || i >= n - 1 {
            return Err(string_of(&chars_of("Patch must start with '*** Begin Patch'")));
        }
        i += 1;
        let ghost first = i as int;
        assert(begin_from(lv, 0) + 1 == first);
        assert(lines_spec(patch_text@) == lv);
        let mut patches: Vec<FilePatch> = Vec::new();
        assert(files_view(patches@) =~= Seq::<FilePatchSpec>::empty());
        while i < n && !is_end_line(&lines[i])
            invariant
                first <= i <= n == lines.len(),
                lv == lines_view(lines@),
                files_from(lv, first, Seq::empty()) == files_from(lv, i as int, files_view(patches@)),
                parse_patch_spec(patch_text@) == (match files_from(lv, first, Seq::empty()) {
                    Err(e) => Err(e),
                    Ok(fs) => if fs.len() == 0 { Err("No valid patches found in input"@) } else { Ok::<Seq<FilePatchSpec>, Seq<char>>(fs) },
                }),
            decreases n - i,
        {
            if starts_lit(&lines[i], "--- ") {
                let k = chars_of("--- ").len();
                let old_path = trim_chars(&strip_opt_exec(&drop_chars(&lines[i], k), "a/"));
                if i + 1 >= n || !starts_lit(&lines[i + 1], "+++ ") {
                    return Err(string_of(&chars_of("Expected '+++ ' line after '--- ' line")));
                }
                let k2 = chars_of("+++ ").len();
                let new_path = trim_chars(&strip_opt_exec(&drop_chars(&lines[i + 1], k2), "b/"));
                let (hunks, next) = read_hunks(&lines, i + 2);
                let fp = FilePatch { old_path, new_path, hunks };
                let ghost prev = files_view(patches@);
                patches.push(fp);
                assert(fp.view().hunks =~= hunks_view(fp.hunks@));
                assert(files_view(patches@) =~= prev.push(fp.view()));
                i = next;
            } else {
                i += 1;
            }
        }
        if patches.len() == 0 {
            return Err(string_of(&chars_of("No valid patches found in input")));
        }
        Ok(patches)
    }

    /// Applies `hunks` in order to the text `content` (empty for a new
    /// file); the new text, or the first hunk's failure.
    pub fn apply_hunks(&self, content: &str, hunks: &Vec<Hunk>) -> (r: Result<String, String>)
        ensures
            match r {
                Ok(t) => apply_all_spec(lines_spec(content@), hunks_view(hunks@), 0) == Ok::<Seq<char>, Seq<char>>(t@),
                Err(e) => apply_all_spec(lines_spec(content@), hunks_view(hunks@), 0) == Err::<Seq<char>, Seq<char>>(e@),
            },
    {
        let mut lines = lines_chars(&chars_of(content));
        let ghost hv = hunks_view(hunks@);
        let mut k: usize = 0;
        while k < hunks.len()
            invariant
                k <= hunks.len(),
                hv == hunks_view(hunks@),
                apply_all_spec(lines_spec(content@), hv, 0) == apply_all_spec(lines_view(lines@), hv, k as int),
            decreases hunks.len() - k,
        {
            match self.apply_hunk(&mut lines, &hunks[k]) {
                Ok(_) => {},
                Err(e) => { return Err(e); },
            }
            k += 1;
        }
        Ok(string_of(&join_chars(&lines, '\n')))
    }
}

/// The text after hunks `hs[k..]` are applied in order to `lines`, joined
/// with `'\n'`; or the first failure.
pub open spec fn apply_all_spec(lines: Seq<Seq<char>>, hs: Seq<HunkSpec>, k: int) -> Result<Seq<char>, Seq<char>>
    decreases hs.len() - k,
{
    if k < 0 || k >= hs.len() {
        Ok(join_spec(lines, '\n'))
    } else {
        match apply_hunk_spec(lines, hs[k].header, hs[k].lines) {
            Err(e) => Err(e),
            Ok(next) => apply_all_spec(next, hs, k + 1),
        }
    }
}

} // verus!
