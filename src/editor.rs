//! The structured file editor's logic: unique-occurrence replacement, line
//! insertion, range views rendered like `cat -n`, and the per-path undo
//! history. Reading and writing the files is left to the caller.

use vstd::prelude::*;
use crate::render::{cat_lines_spec, cat_output_spec, make_output, make_output_lines};
use crate::text::{
    chars_of, copy_chars, decimal, join_chars, join_spec, lines_chars, lines_spec, lines_view, push_decimal, push_str_chars, str_eq, string_of,
};

verus! {

/// Arguments of the `file_editor` tool.
#[derive(Debug, Clone)]
pub struct FileEditorArgs {
    pub command: String,
    pub path: String,
    pub file_text: Option<String>,
    pub view_range: Option<Vec<u64>>,
    pub old_str: Option<String>,
    pub new_str: Option<String>,
    pub insert_line: Option<u64>,
}

/// Lines before and after an edit that its snippet shows.
pub const SNIPPET_CONTEXT_WINDOW: usize = 4;

/// Positions of the non-overlapping occurrences of `p` in `s` at or after
/// `i`, leftmost first, as `str::match_indices` finds them; an empty `p`
/// occurs at every position.
pub open spec fn occ_from(s: Seq<char>, p: Seq<char>, i: int) -> Seq<int>
    decreases s.len() + 1 - i,
{
    if i < 0 || i > s.len() {
        Seq::empty()
    } else if p.len() == 0 {
        seq![i] + occ_from(s, p, i + 1)
    } else if i + p.len() <= s.len() && s.subrange(i, i + p.len()) == p {
        seq![i] + occ_from(s, p, i + p.len())
    } else {
        occ_from(s, p, i + 1)
    }
}

pub open spec fn occurrences(s: Seq<char>, p: Seq<char>) -> Seq<int> {
    occ_from(s, p, 0)
}

/// The number of `'\n'` in `s`.
pub open spec fn newlines(s: Seq<char>) -> nat
    decreases s.len(),
{
    if s.len() == 0 {
        0
    } else {
        newlines(s.drop_last()) + if s.last() == '\n' { 1nat } else { 0nat }
    }
}

/// The 1-based line on which position `i` of `s` lies.
pub open spec fn line_at_pos(s: Seq<char>, i: int) -> nat {
    newlines(s.subrange(0, i)) + 1
}

fn find_occurrences(s: &Vec<char>, p: &Vec<char>) -> (r: Vec<usize>)
    ensures
        r@.len() == occurrences(s@, p@).len(),
        forall|k: int| 0 <= k < r@.len() ==> r@[k] as int == #[trigger] occurrences(s@, p@)[k],
        forall|k: int| 0 <= k < r@.len() ==> r@[k] + p@.len() <= s@.len(),
{
    let mut r: Vec<usize> = Vec::new();
    let mut i: usize = 0;
    let n = s.len();
    while i < n
        invariant
            n == s.len(),
            i <= n,
            occurrences(s@, p@) == Seq::new(r@.len(), |k: int| r@[k] as int) + occ_from(s@, p@, i as int),
            forall|k: int| 0 <= k < r@.len() ==> r@[k] + p@.len() <= s@.len(),
        decreases n - i,
    {
        let ghost prev = Seq::new(r@.len(), |k: int| r@[k] as int);
        if p.len() == 0 {
            r.push(i);
            assert(Seq::new(r@.len(), |k: int| r@[k] as int) =~= prev + seq![i as int]);
            i += 1;
        } else if p.len() <= n - i && matches_here(s, p, i) {
            r.push(i);
            assert(Seq::new(r@.len(), |k: int| r@[k] as int) =~= prev + seq![i as int]);
            i += p.len();
        } else {
            i += 1;
        }
    }
    let ghost prev = Seq::new(r@.len(), |k: int| r@[k] as int);
    if p.len() == 0 {
        r.push(n);
        assert(occ_from(s@, p@, n + 1) =~= Seq::<int>::empty());
        assert(Seq::new(r@.len(), |k: int| r@[k] as int) =~= prev + seq![n as int]);
    } else {
        assert(occ_from(s@, p@, n + 1) =~= Seq::<int>::empty());
    }
    assert(occurrences(s@, p@) =~= Seq::new(r@.len(), |k: int| r@[k] as int));
    r
}

fn matches_here(s: &Vec<char>, p: &Vec<char>, i: usize) -> (r: bool)
    requires
        i + p.len() <= s.len(),
    ensures
        r == (s@.subrange(i as int, i + p.len()) == p@),
{
    let mut j: usize = 0;
    while j < p.len()
        invariant
            j <= p.len(),
            i + p.len() <= s.len(),
            s@.subrange(i as int, i + j) == p@.subrange(0, j as int),
        decreases p.len() - j,
    {
        if s[i + j] != p[j] {
            assert(s@.subrange(i as int, i + p.len())[j as int] != p@[j as int]);
            return false;
        }
        j += 1;
        assert(s@.subrange(i as int, i + j) =~= p@.subrange(0, j as int));
    }
    assert(p@.subrange(0, p.len() as int) =~= p@);
    true
}

fn count_newlines(s: &Vec<char>, to: usize) -> (r: usize)
    requires
        to <= s.len(),
    ensures
        r == newlines(s@.subrange(0, to as int)),
        r <= to,
{
    let mut c: usize = 0;
    let mut i: usize = 0;
    while i < to
        invariant
            i <= to <= s.len(),
            c == newlines(s@.subrange(0, i as int)),
            c <= i,
        decreases to - i,
    {
        assert(s@.subrange(0, i + 1).drop_last() =~= s@.subrange(0, i as int));
        if s[i] == '\n' {
            c += 1;
        }
        i += 1;
    }
    c
}

/// Why `str_replace` performed no replacement.
#[derive(Debug, Clone, PartialEq, Eq)]
pub enum ReplaceError {
    /// `old_str` and `new_str` are equal.
    Identical,
    /// `old_str` does not occur.
    NotFound,
    /// `old_str` occurs more than once; the 1-based line of each occurrence.
    Multiple(Vec<usize>),
}

/// A performed replacement: the new contents and the 1-based line where
/// the replacement starts.
#[derive(Debug, Clone)]
pub struct Replaced {
    pub new_content: String,
    pub line: usize,
}

/// The contents after `old` at position `i` of `s` gives way to `new`.
pub open spec fn replaced_at(s: Seq<char>, old: Seq<char>, new: Seq<char>, i: int) -> Seq<char> {
    s.subrange(0, i) + new + s.subrange(i + old.len(), s.len() as int)
}

/// Replaces `old_str` by `new_str` in `content` when it occurs exactly once.
/// Nothing is replaced when the two are equal, when `old_str` does not
/// occur, or when it occurs more than once.
pub fn str_replace(content: &str, old_str: &str, new_str: &str) -> (r: Result<Replaced, ReplaceError>)
    requires
        content@.len() < usize::MAX,
    ensures
        old_str@ == new_str@ ==> r == Err::<Replaced, ReplaceError>(ReplaceError::Identical),
        old_str@ != new_str@ && occurrences(content@, old_str@).len() == 0 ==> r == Err::<Replaced, ReplaceError>(ReplaceError::NotFound),
        old_str@ != new_str@ && occurrences(content@, old_str@).len() >= 2 ==> (r matches Err(ReplaceError::Multiple(lines))
            && lines@.len() == occurrences(content@, old_str@).len()
            && forall|k: int| 0 <= k < lines@.len() ==> lines@[k] as int == line_at_pos(content@, #[trigger] occurrences(content@, old_str@)[k])),
        old_str@ != new_str@ && occurrences(content@, old_str@).len() == 1 ==> (r matches Ok(done)
            && done.new_content@ == replaced_at(content@, old_str@, new_str@, occurrences(content@, old_str@)[0])
            && done.line as int == line_at_pos(content@, occurrences(content@, old_str@)[0])),
        r is Ok <==> (old_str@ != new_str@ && occurrences(content@, old_str@).len() == 1),
{
    if str_eq(old_str, new_str) {
        return Err(ReplaceError::Identical);
    }
    let s = chars_of(content);
    let p = chars_of(old_str);
    let occ = find_occurrences(&s, &p);
    if occ.len() == 0 {
        return Err(ReplaceError::NotFound);
    }
    if occ.len() > 1 {
        let mut lines: Vec<usize> = Vec::new();
        let mut k: usize = 0;
        while k < occ.len()
            invariant
                k <= occ.len(),
                occ@.len() == occurrences(s@, p@).len(),
                forall|j: int| 0 <= j < occ@.len() ==> occ@[j] as int == #[trigger] occurrences(s@, p@)[j],
                forall|j: int| 0 <= j < occ@.len() ==> occ@[j] + p@.len() <= s@.len(),
                lines@.len() == k,
                s.len() < usize::MAX,
                forall|j: int| 0 <= j < k ==> lines@[j] as int == line_at_pos(s@, #[trigger] occurrences(s@, p@)[j]),
            decreases occ.len() - k,
        {
            let c = count_newlines(&s, occ[k]);
            lines.push(c + 1);
            k += 1;
        }
        return Err(ReplaceError::Multiple(lines));
    }
    let i = occ[0];
    let mut out: Vec<char> = Vec::new();
    let mut j: usize = 0;
    while j < i
        invariant
            j <= i <= s.len(),
            out@ == s@.subrange(0, j as int),
        decreases i - j,
    {
        out.push(s[j]);
        j += 1;
        assert(out@ =~= s@.subrange(0, j as int));
    }
    push_str_chars(&mut out, new_str);
    let mut j: usize = i + p.len();
    let ghost base = out@;
    while j < s.len()
        invariant
            i + p.len() <= j <= s.len(),
            out@ == base + s@.subrange(i + p.len(), j as int),
        decreases s.len() - j,
    {
        out.push(s[j]);
        j += 1;
        assert(out@ =~= base + s@.subrange(i + p.len(), j as int));
    }
    assert(out@ =~= replaced_at(s@, p@, new_str@, i as int));
    let c = count_newlines(&s, i);
    Ok(Replaced { new_content: string_of(&out), line: c + 1 })
}


/// The lines `ls[from..to]`.
fn lines_range(ls: &Vec<Vec<char>>, from: usize, to: usize) -> (r: Vec<Vec<char>>)
    requires
        from <= to <= ls.len(),
    ensures
        lines_view(r@) == lines_view(ls@).subrange(from as int, to as int),
{
    let mut part: Vec<Vec<char>> = Vec::new();
    let mut i: usize = from;
    while i < to
        invariant
            from <= i <= to <= ls.len(),
            lines_view(part@) == lines_view(ls@).subrange(from as int, i as int),
        decreases to - i,
    {
        let ghost prev = lines_view(part@);
        let l = copy_chars(&ls[i]);
        let ghost lv = l@;
        part.push(l);
        assert(lines_view(part@) =~= prev.push(lv));
        i += 1;
        assert(lines_view(part@) =~= lines_view(ls@).subrange(from as int, i as int));
    }
    part
}

pub open spec fn min_int(a: int, b: int) -> int {
    if a < b { a } else { b }
}

/// The `view` of a regular file with contents `content`: the lines in
/// `view_range` (1-based, inclusive, the end clamped to the file), or all
/// of them, rendered like `cat -n`; or the error that a bad range gives.
pub open spec fn view_file_spec(content: Seq<char>, path: Seq<char>, range: Option<Seq<u64>>) -> Seq<char> {
    let ls = lines_spec(content);
    let n = ls.len() as int;
    match range {
        Some(r) => if r.len() != 2 {
            "Error: view_range should be a list of two integers."@
        } else if r[0] < 1 || r[0] > n {
            "Error: Its first element `"@ + decimal(r[0] as nat) + "` should be within the range of lines of the file: [1, "@
                + decimal(n as nat) + "]."@
        } else if r[1] < r[0] {
            "Error: Its second element `"@ + decimal(r[1] as nat) + "` should be greater than or equal to the first element `"@
                + decimal(r[0] as nat) + "`."@
        } else {
            cat_lines_spec(ls.subrange(r[0] - 1, min_int(r[1] as int, n)), path, r[0] as int)
        },
        None => cat_lines_spec(ls, path, 1),
    }
}

/// Renders the `view` of a regular file whose contents are `content`.
pub fn view_file(content: &str, path: &str, view_range: &Option<Vec<u64>>) -> (r: String)
    ensures
        r@ == view_file_spec(content@, path@, match view_range { Some(v) => Some(v@), None => None }),
{
    let chars = chars_of(content);
    let lines = lines_chars(&chars);
    let ghost ls = lines_spec(content@);
    let n = lines.len();
    match view_range {
        Some(range) => {
            if range.len() != 2 {
                return string_of(&chars_of("Error: view_range should be a list of two integers."));
            }
            let s = range[0];
            let e = range[1];
            if s < 1 || s > n as u64 {
                let mut m: Vec<char> = Vec::new();
                push_str_chars(&mut m, "Error: Its first element `");
                push_decimal(&mut m, s as u128);
                push_str_chars(&mut m, "` should be within the range of lines of the file: [1, ");
                push_decimal(&mut m, n as u128);
                push_str_chars(&mut m, "].");
                return string_of(&m);
            }
            if e < s {
                let mut m: Vec<char> = Vec::new();
                push_str_chars(&mut m, "Error: Its second element `");
                push_decimal(&mut m, e as u128);
                push_str_chars(&mut m, "` should be greater than or equal to the first element `");
                push_decimal(&mut m, s as u128);
                push_str_chars(&mut m, "`.");
                return string_of(&m);
            }
            let end: usize = if e < n as u64 { e as usize } else { n };
            let snippet = lines_range(&lines, (s - 1) as usize, end);
            make_output_lines(&snippet, path, s as usize)
        },
        None => {
            let snippet = lines_range(&lines, 0, n);
            assert(lines_view(lines@).subrange(0, n as int) =~= ls);
            make_output_lines(&snippet, path, 1)
        },
    }
}

/// `content` with `text` inserted as a line after its first `k` lines.
pub open spec fn inserted_spec(content: Seq<char>, k: int, text: Seq<char>) -> Seq<char> {
    let ls = lines_spec(content);
    join_spec(ls.subrange(0, k) + seq![text] + ls.subrange(k, ls.len() as int), '\n')
}

/// Inserts `text` after the first `insert_line` lines of `content`; fails
/// when `insert_line` exceeds the number of lines.
pub fn insert_text(content: &str, insert_line: u64, text: &str) -> (r: Result<String, String>)
    ensures
        insert_line <= lines_spec(content@).len() ==> (r matches Ok(t) && t@ == inserted_spec(content@, insert_line as int, text@)),
        insert_line > lines_spec(content@).len() ==> (r matches Err(m) && m@ == "Error: insert_line "@ + decimal(insert_line as nat)
            + " should be within the range of allowed values: [0, "@ + decimal(lines_spec(content@).len()) + "]"@),
{
    let chars = chars_of(content);
    let lines = lines_chars(&chars);
    let ghost ls = lines_view(lines@);
    let n = lines.len();
    if insert_line > n as u64 {
        let mut m: Vec<char> = Vec::new();
        push_str_chars(&mut m, "Error: insert_line ");
        push_decimal(&mut m, insert_line as u128);
        push_str_chars(&mut m, " should be within the range of allowed values: [0, ");
        push_decimal(&mut m, n as u128);
        push_str_chars(&mut m, "]");
        return Err(string_of(&m));
    }
    let k = insert_line as usize;
    let mut out: Vec<Vec<char>> = Vec::new();
    let mut i: usize = 0;
    while i < n
        invariant
            i <= n == lines.len(),
            k <= n,
            ls == lines_view(lines@),
            lines_view(out@) == (if i <= k { ls.subrange(0, i as int) } else {
                ls.subrange(0, k as int) + seq![text@] + ls.subrange(k as int, i as int) }),
        decreases n - i,
    {
        if i == k {
            let ghost prev = lines_view(out@);
            let t = chars_of(text);
            let ghost tv = t@;
            out.push(t);
            assert(lines_view(out@) =~= prev.push(tv));
        }
        let ghost prev = lines_view(out@);
        let l = copy_chars(&lines[i]);
        let ghost lv = l@;
        out.push(l);
        assert(lines_view(out@) =~= prev.push(lv));
        i += 1;
        assert(lines_view(out@) =~= (if i <= k { ls.subrange(0, i as int) } else {
            ls.subrange(0, k as int) + seq![text@] + ls.subrange(k as int, i as int) }));
    }
    if k == n {
        let ghost prev = lines_view(out@);
        let t = chars_of(text);
        let ghost tv = t@;
        out.push(t);
        assert(lines_view(out@) =~= prev.push(tv));
    }
    assert(lines_view(out@) =~= ls.subrange(0, k as int) + seq![text@] + ls.subrange(k as int, n as int));
    Ok(string_of(&join_chars(&out, '\n')))
}

/// The lines of `content` from `start` up to (not including) `end`, both
/// clamped to the file.
pub open spec fn window_spec(content: Seq<char>, start: int, end: int) -> Seq<Seq<char>> {
    let ls = lines_spec(content);
    ls.subrange(min_int(start, ls.len() as int), min_int(if end < start { start } else { end }, ls.len() as int))
}

fn window(content: &str, start: u128, end: u128) -> (r: Vec<Vec<char>>)
    ensures
        lines_view(r@) == window_spec(content@, start as int, end as int),
{
    let chars = chars_of(content);
    let lines = lines_chars(&chars);
    let n = lines.len();
    let a: usize = if start < n as u128 { start as usize } else { n };
    let e2: u128 = if end < start { start } else { end };
    let b: usize = if e2 < n as u128 { e2 as usize } else { n };
    lines_range(&lines, a, b)
}

/// What a successful `str_replace` reports: a snippet of the new contents
/// around the replaced line.
pub open spec fn replace_message_spec(path: Seq<char>, new_content: Seq<char>, line: int, new_str: Seq<char>) -> Seq<char> {
    let start = if line >= SNIPPET_CONTEXT_WINDOW { line - SNIPPET_CONTEXT_WINDOW } else { 0 };
    let end = line + SNIPPET_CONTEXT_WINDOW + newlines(new_str);
    "The file "@ + path + " has been edited. "@
        + cat_lines_spec(window_spec(new_content, start, end), "a snippet of "@ + path, start + 1)
        + "Review the changes and make sure they are as expected. Edit the file again if necessary."@
}

/// The report of a successful `str_replace` on `path`.
pub fn replace_message(path: &str, new_content: &str, line: usize, new_str: &str) -> (r: String)
    ensures
        r@ == replace_message_spec(path@, new_content@, line as int, new_str@),
{
    let start: usize = if line >= SNIPPET_CONTEXT_WINDOW { line - SNIPPET_CONTEXT_WINDOW } else { 0 };
    let ns = chars_of(new_str);
    let nl = count_newlines(&ns, ns.len());
    assert(ns@.subrange(0, ns.len() as int) =~= new_str@);
    let end: u128 = line as u128 + SNIPPET_CONTEXT_WINDOW as u128 + nl as u128;
    let snippet = window(new_content, start as u128, end);
    let mut desc: Vec<char> = Vec::new();
    push_str_chars(&mut desc, "a snippet of ");
    push_str_chars(&mut desc, path);
    let shown = make_output_lines(&snippet, &string_of(&desc), start + 1);
    let mut m: Vec<char> = Vec::new();
    push_str_chars(&mut m, "The file ");
    push_str_chars(&mut m, path);
    push_str_chars(&mut m, " has been edited. ");
    push_str_chars(&mut m, &shown);
    push_str_chars(&mut m, "Review the changes and make sure they are as expected. Edit the file again if necessary.");
    string_of(&m)
}

/// What a successful `insert` reports: a snippet of the new contents
/// around the inserted text.
pub open spec fn insert_message_spec(path: Seq<char>, new_content: Seq<char>, insert_line: int, text: Seq<char>) -> Seq<char> {
    let start = if insert_line >= SNIPPET_CONTEXT_WINDOW { insert_line - SNIPPET_CONTEXT_WINDOW } else { 0 };
    let end = insert_line + SNIPPET_CONTEXT_WINDOW + lines_spec(text).len();
    "The file "@ + path + " has been edited. "@
        + cat_lines_spec(window_spec(new_content, start, end), "a snippet of the edited file"@, start + 1)
        + "Review the changes and make sure they are as expected (correct indentation, no duplicate lines, etc). Edit the file again if necessary."@
}

/// The report of a successful `insert` on `path`.
pub fn insert_message(path: &str, new_content: &str, insert_line: u64, text: &str) -> (r: String)
    requires
        insert_line < usize::MAX,
    ensures
        r@ == insert_message_spec(path@, new_content@, insert_line as int, text@),
{
    let start: usize = if insert_line >= SNIPPET_CONTEXT_WINDOW as u64 { (insert_line - SNIPPET_CONTEXT_WINDOW as u64) as usize } else { 0 };
    let tl = lines_chars(&chars_of(text)).len();
    let end: u128 = insert_line as u128 + SNIPPET_CONTEXT_WINDOW as u128 + tl as u128;
    let snippet = window(new_content, start as u128, end);
    let shown = make_output_lines(&snippet, "a snippet of the edited file", start + 1);
    let mut m: Vec<char> = Vec::new();
    push_str_chars(&mut m, "The file ");
    push_str_chars(&mut m, path);
    push_str_chars(&mut m, " has been edited. ");
    push_str_chars(&mut m, &shown);
    push_str_chars(&mut m, "Review the changes and make sure they are as expected (correct indentation, no duplicate lines, etc). Edit the file again if necessary.");
    string_of(&m)
}


/// The message for a `str_replace` that replaced nothing.
pub open spec fn replace_error_spec(err: ReplaceError, old_str: Seq<char>, path: Seq<char>) -> Seq<char> {
    match err {
        ReplaceError::Identical => "Error: No replacement was performed. `new_str` and `old_str` must be different. Please provide different values."@,
        ReplaceError::NotFound => "Error: No replacement was performed, old_str `"@ + old_str + "` did not appear verbatim in "@ + path
            + ". Please check the file content and try again with the correct string."@,
        ReplaceError::Multiple(lines) => "Error: No replacement was performed. Multiple occurrences of old_str `"@ + old_str
            + "` in lines "@ + list_spec(lines@) + ". Please provide more context to make the match unique."@,
    }
}

/// Numbers separated by `", "`.
pub open spec fn list_items(v: Seq<usize>) -> Seq<char>
    decreases v.len(),
{
    if v.len() == 0 {
        Seq::empty()
    } else if v.len() == 1 {
        decimal(v[0] as nat)
    } else {
        list_items(v.drop_last()) + ", "@ + decimal(v.last() as nat)
    }
}

/// Numbers as `{:?}` renders a vector of them: `[1, 2, 3]`.
pub open spec fn list_spec(v: Seq<usize>) -> Seq<char> {
    "["@ + list_items(v) + "]"@
}

fn push_list(out: &mut Vec<char>, v: &Vec<usize>)
    ensures
        final(out)@ == old(out)@ + list_spec(v@),
{
    push_str_chars(out, "[");
    let ghost base = out@;
    let mut i: usize = 0;
    while i < v.len()
        invariant
            i <= v.len(),
            out@ == base + list_items(v@.subrange(0, i as int)),
        decreases v.len() - i,
    {
        if i > 0 {
            push_str_chars(out, ", ");
        }
        push_decimal(out, v[i] as u128);
        let ghost sub = v@.subrange(0, i + 1);
        assert(sub.drop_last() =~= v@.subrange(0, i as int));
        i += 1;
        assert(out@ =~= base + list_items(v@.subrange(0, i as int)));
    }
    assert(v@.subrange(0, v.len() as int) =~= v@);
    push_str_chars(out, "]");
    assert(final(out)@ =~= old(out)@ + list_spec(v@));
}

/// The report of a `str_replace` on `path` that replaced nothing.
pub fn replace_error_message(err: &ReplaceError, old_str: &str, path: &str) -> (r: String)
    ensures
        r@ == replace_error_spec(*err, old_str@, path@),
{
    let mut m: Vec<char> = Vec::new();
    match err {
        ReplaceError::Identical => {
            push_str_chars(&mut m, "Error: No replacement was performed. `new_str` and `old_str` must be different. Please provide different values.");
        },
        ReplaceError::NotFound => {
            push_str_chars(&mut m, "Error: No replacement was performed, old_str `");
            push_str_chars(&mut m, old_str);
            push_str_chars(&mut m, "` did not appear verbatim in ");
            push_str_chars(&mut m, path);
            push_str_chars(&mut m, ". Please check the file content and try again with the correct string.");
        },
        ReplaceError::Multiple(lines) => {
            push_str_chars(&mut m, "Error: No replacement was performed. Multiple occurrences of old_str `");
            push_str_chars(&mut m, old_str);
            push_str_chars(&mut m, "` in lines ");
            push_list(&mut m, lines);
            push_str_chars(&mut m, ". Please provide more context to make the match unique.");
        },
    }
    assert(m@ =~= replace_error_spec(*err, old_str@, path@));
    string_of(&m)
}

/// The report of `undo_edit` on `path`: the restored contents `previous`
/// rendered like `cat -n`, or that there was nothing to undo.
pub fn undo_message(path: &str, previous: Option<&str>) -> (r: String)
    ensures
        match previous {
            Some(p) => r@ == "Last edit to "@ + path@ + " undone successfully. "@ + cat_output_spec(p@, path@, 1),
            None => r@ == "Error: No edit history found for "@ + path@,
        },
{
    let mut m: Vec<char> = Vec::new();
    match previous {
        Some(p) => {
            push_str_chars(&mut m, "Last edit to ");
            push_str_chars(&mut m, path);
            push_str_chars(&mut m, " undone successfully. ");
            let shown = make_output(p, path, 1);
            push_str_chars(&mut m, shown.as_str());
        },
        None => {
            push_str_chars(&mut m, "Error: No edit history found for ");
            push_str_chars(&mut m, path);
        },
    }
    string_of(&m)
}

/// The stack of earlier contents of `p` in history `h`.
pub open spec fn stack_of(h: Map<Seq<char>, Seq<Seq<char>>>, p: Seq<char>) -> Seq<Seq<char>> {
    if h.contains_key(p) { h[p] } else { Seq::empty() }
}

/// The history after a mutating operation on `p` saved `content`.
pub open spec fn record_spec(h: Map<Seq<char>, Seq<Seq<char>>>, p: Seq<char>, content: Seq<char>) -> Map<Seq<char>, Seq<Seq<char>>> {
    h.insert(p, stack_of(h, p).push(content))
}

/// What `undo_edit` on `p` restores, and the history after it.
pub open spec fn undo_spec(h: Map<Seq<char>, Seq<Seq<char>>>, p: Seq<char>) -> (Option<Seq<char>>, Map<Seq<char>, Seq<Seq<char>>>) {
    if stack_of(h, p).len() > 0 {
        (Some(stack_of(h, p).last()), h.insert(p, stack_of(h, p).drop_last()))
    } else {
        (None, h)
    }
}

/// Undoing right after a mutating operation gives back exactly the
/// contents that the operation saved, and leaves every path's history as it
/// was before the operation.
pub proof fn lemma_undo_restores(h: Map<Seq<char>, Seq<Seq<char>>>, p: Seq<char>, content: Seq<char>)
    ensures
        undo_spec(record_spec(h, p, content), p).0 == Some(content),
        forall|q: Seq<char>| #[trigger] stack_of(undo_spec(record_spec(h, p, content), p).1, q) == stack_of(h, q),
{
    let h2 = record_spec(h, p, content);
    assert(stack_of(h2, p) == stack_of(h, p).push(content));
    assert(stack_of(h, p).push(content).drop_last() =~= stack_of(h, p));
}

/// Views of a sequence of strings.
pub open spec fn strings_view(v: Seq<String>) -> Seq<Seq<char>> {
    Seq::new(v.len(), |i: int| v[i]@)
}

fn copy_strings(v: &Vec<String>) -> (r: Vec<String>)
    ensures
        strings_view(r@) == strings_view(v@),
{
    let mut r: Vec<String> = Vec::new();
    let mut i: usize = 0;
    while i < v.len()
        invariant
            i <= v.len(),
            strings_view(r@) == strings_view(v@).subrange(0, i as int),
        decreases v.len() - i,
    {
        let c = v[i].clone();
        let ghost prev = strings_view(r@);
        r.push(c);
        assert(strings_view(r@) =~= prev.push(v@[i as int]@));
        i += 1;
        assert(strings_view(r@) =~= strings_view(v@).subrange(0, i as int));
    }
    assert(strings_view(v@).subrange(0, v.len() as int) =~= strings_view(v@));
    r
}

/// Per-path stacks of earlier file contents, most recent last.
#[derive(Debug, Clone)]
pub struct EditHistory {
    entries: Vec<(String, Vec<String>)>,
}

impl EditHistory {
    pub closed spec fn wf(&self) -> bool {
        forall|i: int, j: int| 0 <= i < j < self.entries@.len() ==> self.entries@[i].0@ != self.entries@[j].0@
    }

    pub closed spec fn view(&self) -> Map<Seq<char>, Seq<Seq<char>>> {
        Map::new(
            |k: Seq<char>| exists|i: int| 0 <= i < self.entries@.len() && self.entries@[i].0@ == k,
            |k: Seq<char>| strings_view(self.entries@[choose|i: int| 0 <= i < self.entries@.len() && self.entries@[i].0@ == k].1@),
        )
    }

    /// An empty history.
    pub fn new() -> (r: Self)
        ensures
            r.wf(),
            r.view() == Map::<Seq<char>, Seq<Seq<char>>>::empty(),
    {
        let r = EditHistory { entries: Vec::new() };
        assert(r.view() =~= Map::<Seq<char>, Seq<Seq<char>>>::empty());
        r
    }

    fn find(&self, path: &str) -> (r: Option<usize>)
        requires
            self.wf(),
        ensures
            r matches Some(i) ==> i < self.entries@.len() && self.entries@[i as int].0@ == path@
                && self.view().contains_key(path@) && self.view()[path@] == strings_view(self.entries@[i as int].1@),
            r is None ==> !self.view().contains_key(path@),
    {
        let mut i: usize = 0;
        while i < self.entries.len()
            invariant
                i <= self.entries@.len(),
                self.wf(),
                forall|j: int| 0 <= j < i ==> self.entries@[j].0@ != path@,
            decreases self.entries.len() - i,
        {
            if str_eq(self.entries[i].0.as_str(), path) {
                let ghost k = choose|j: int| 0 <= j < self.entries@.len() && self.entries@[j].0@ == path@;
                assert(k == i);
                return Some(i);
            }
            i += 1;
        }
        None
    }

    proof fn lemma_set(old_h: Self, new_h: Self, i: int, p: Seq<char>, st: Seq<Seq<char>>)
        requires
            old_h.wf(),
            0 <= i < old_h.entries@.len(),
            old_h.entries@[i].0@ == p,
            new_h.entries@.len() == old_h.entries@.len(),
            new_h.entries@[i].0@ == p,
            strings_view(new_h.entries@[i].1@) == st,
            forall|j: int| 0 <= j < old_h.entries@.len() && j != i ==> new_h.entries@[j] == old_h.entries@[j],
        ensures
            new_h.wf(),
            new_h.view() == old_h.view().insert(p, st),
    {
        assert forall|k: Seq<char>| #[trigger] new_h.view().contains_key(k) == old_h.view().insert(p, st).contains_key(k) by {
            if k != p {
                if old_h.view().contains_key(k) {
                    let j = choose|j: int| 0 <= j < old_h.entries@.len() && old_h.entries@[j].0@ == k;
                    assert(new_h.entries@[j].0@ == k);
                }
                if new_h.view().contains_key(k) {
                    let j = choose|j: int| 0 <= j < new_h.entries@.len() && new_h.entries@[j].0@ == k;
                    assert(old_h.entries@[j].0@ == k);
                }
            } else {
                assert(new_h.entries@[i].0@ == k);
            }
        }
        assert forall|k: Seq<char>| new_h.view().contains_key(k) implies #[trigger] new_h.view()[k] == old_h.view().insert(p, st)[k] by {
            let j = choose|j: int| 0 <= j < new_h.entries@.len() && new_h.entries@[j].0@ == k;
            if k != p {
                let j2 = choose|j: int| 0 <= j < old_h.entries@.len() && old_h.entries@[j].0@ == k;
                assert(old_h.entries@[j].0@ == k);
            } else {
                assert(j == i);
            }
        }
        assert(new_h.view() =~= old_h.view().insert(p, st));
    }

    /// Saves `content` as the latest earlier version of `path`.
    pub fn record(&mut self, path: &str, content: String)
        requires
            old(self).wf(),
        ensures
            final(self).wf(),
            final(self).view() == record_spec(old(self).view(), path@, content@),
    {
        match self.find(path) {
            Some(i) => {
                let mut st = copy_strings(&self.entries[i].1);
                let ghost cv = content@;
                st.push(content);
                assert(strings_view(st@) =~= stack_of(old(self).view(), path@).push(cv));
                let ghost st_v = strings_view(st@);
                self.entries.set(i, (string_of(&chars_of(path)), st));
                proof { Self::lemma_set(*old(self), *self, i as int, path@, st_v); }
            },
            None => {
                let ghost pv = path@;
                let ghost cv = content@;
                let ghost n = self.entries@.len();
                let mut st: Vec<String> = Vec::new();
                st.push(content);
                assert(strings_view(st@) =~= seq![cv]);
                self.entries.push((string_of(&chars_of(path)), st));
                assert forall|k: Seq<char>| #[trigger] self.view().contains_key(k) == old(self).view().insert(pv, seq![cv]).contains_key(k) by {
                    if k != pv {
                        if old(self).view().contains_key(k) {
                            let j = choose|j: int| 0 <= j < old(self).entries@.len() && old(self).entries@[j].0@ == k;
                            assert(self.entries@[j].0@ == k);
                        }
                        if self.view().contains_key(k) {
                            let j = choose|j: int| 0 <= j < self.entries@.len() && self.entries@[j].0@ == k;
                            assert(j != n);
                            assert(old(self).entries@[j].0@ == k);
                        }
                    } else {
                        assert(self.entries@[n as int].0@ == k);
                    }
                }
                assert forall|k: Seq<char>| self.view().contains_key(k) implies #[trigger] self.view()[k] == old(self).view().insert(pv, seq![cv])[k] by {
                    let j = choose|j: int| 0 <= j < self.entries@.len() && self.entries@[j].0@ == k;
                    if k != pv {
                        assert(j != n);
                        assert(old(self).entries@[j].0@ == k);
                    } else {
                        assert(j == n);
                    }
                }
                assert(self.view() =~= old(self).view().insert(pv, seq![cv]));
                assert(stack_of(old(self).view(), pv).push(cv) =~= seq![cv]);
            },
        }
    }

    /// Takes the latest earlier version of `path` off its stack.
    pub fn undo(&mut self, path: &str) -> (r: Option<String>)
        requires
            old(self).wf(),
        ensures
            final(self).wf(),
            (match r { Some(s) => Some(s@), None => None }, final(self).view()) == undo_spec(old(self).view(), path@),
    {
        match self.find(path) {
            Some(i) => {
                if self.entries[i].1.len() == 0 {
                    return None;
                }
                let mut st = copy_strings(&self.entries[i].1);
                assert(strings_view(st@).len() == st@.len());
                assert(strings_view(self.entries@[i as int].1@).len() == self.entries@[i as int].1@.len());
                let last = st.pop().unwrap();
                assert(strings_view(st@) =~= stack_of(old(self).view(), path@).drop_last());
                let ghost st_v = strings_view(st@);
                self.entries.set(i, (string_of(&chars_of(path)), st));
                proof { Self::lemma_set(*old(self), *self, i as int, path@, st_v); }
                Some(last)
            },
            None => None,
        }
    }
}


/// The whole `str_replace` command on the file shown as `path` with
/// contents `content`: the report, and the new contents to write, which
/// exist exactly when `old_str` differs from `new_str` and occurs once. Only
/// then is `content` saved in `history`; otherwise history is untouched and
/// the report is the error.
pub fn str_replace_edit(history: &mut EditHistory, path: &str, content: String, old_str: &str, new_str: &str) -> (r: (String, Option<String>))
    requires
        old(history).wf(),
        content@.len() < usize::MAX,
    ensures
        final(history).wf(),
        r.1 is Some <==> (old_str@ != new_str@ && occurrences(content@, old_str@).len() == 1),
        r.1 matches Some(t) ==> t@ == replaced_at(content@, old_str@, new_str@, occurrences(content@, old_str@)[0])
            && final(history).view() == record_spec(old(history).view(), path@, content@)
            && r.0@ == replace_message_spec(path@, t@, line_at_pos(content@, occurrences(content@, old_str@)[0]) as int, new_str@),
        r.1 is None ==> final(history).view() == old(history).view()
            && (exists|e: ReplaceError| str_replace_failure(e, content@, old_str@, new_str@) && r.0@ == replace_error_spec(e, old_str@, path@)),
{
    match str_replace(content.as_str(), old_str, new_str) {
        Ok(done) => {
            history.record(path, content);
            let msg = replace_message(path, done.new_content.as_str(), done.line, new_str);
            (msg, Some(done.new_content))
        },
        Err(e) => {
            let msg = replace_error_message(&e, old_str, path);
            (msg, None)
        },
    }
}

/// `e` is the failure `str_replace` reports for these arguments.
pub open spec fn str_replace_failure(e: ReplaceError, content: Seq<char>, old_str: Seq<char>, new_str: Seq<char>) -> bool {
    if old_str == new_str {
        e == ReplaceError::Identical
    } else if occurrences(content, old_str).len() == 0 {
        e == ReplaceError::NotFound
    } else {
        e matches ReplaceError::Multiple(lines) && lines@.len() == occurrences(content, old_str).len()
            && forall|k: int| 0 <= k < lines@.len() ==> lines@[k] as int == line_at_pos(content, #[trigger] occurrences(content, old_str)[k])
    }
}

} // verus!
