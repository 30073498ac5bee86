//! A line-oriented file editor: view, insert, replace and delete by line
//! number, with a per-file session holding the current text
//! and its earlier versions. Reading and writing files is the caller's.

use vstd::prelude::*;
use crate::text::{
    chars_of, copy_chars, decimal, join_chars, join_spec, lines_chars, lines_spec, lines_view, pad_left, push_all,
    push_decimal, push_padded, push_str_chars, str_eq, string_of,
};

verus! {

/// `a - b`, or 0 when `b` is larger.
pub open spec fn sat_sub(a: int, b: int) -> int {
    if a >= b { a - b } else { 0 }
}

pub open spec fn min(a: int, b: int) -> int {
    if a < b { a } else { b }
}

/// The lines `ls[start..end]` (nothing when `end < start`) rendered as
/// `{:4} | line`, numbered from `start + 1`.
pub open spec fn view_lines_spec(ls: Seq<Seq<char>>, start: int, end: int) -> Seq<Seq<char>> {
    let k = if end > start { end - start } else { 0 };
    Seq::new(k as nat, |i: int| pad_left(decimal((start + i + 1) as nat), 4) + " | "@ + ls[start + i])
}

/// The result of viewing lines `start_line..=end_line` (1-based; the start
/// defaults to the first line and the end to the last) of `content`.
pub open spec fn view_operation_spec(content: Seq<char>, path: Seq<char>, start_line: Option<usize>, end_line: Option<usize>) -> Result<Seq<char>, Seq<char>> {
    let ls = lines_spec(content);
    let n = ls.len() as int;
    let start = sat_sub(match start_line { Some(s) => s as int, None => 1 }, 1);
    let end = min(match end_line { Some(e) => e as int, None => n }, n);
    if start >= n {
        Err("Start line "@ + decimal((start + 1) as nat) + " is beyond file length "@ + decimal(n as nat))
    } else {
        Ok("Viewing '"@ + path + "' (lines "@ + decimal((start + 1) as nat) + "-"@ + decimal(end as nat) + "):\n"@
            + join_spec(view_lines_spec(ls, start, end), '\n'))
    }
}

/// Views part of `content`.
pub fn view_lines(content: &str, path: &str, start_line: Option<usize>, end_line: Option<usize>) -> (r: Result<String, String>)
    ensures
        match r {
            Ok(s) => view_operation_spec(content@, path@, start_line, end_line) == Ok::<Seq<char>, Seq<char>>(s@),
            Err(e) => view_operation_spec(content@, path@, start_line, end_line) == Err::<Seq<char>, Seq<char>>(e@),
        },
{
    let lines = lines_chars(&chars_of(content));
    let ghost ls = lines_view(lines@);
    let n = lines.len();
    let s0: usize = match start_line { Some(s) => s, None => 1 };
    let start: usize = if s0 >= 1 { s0 - 1 } else { 0 };
    let e0: usize = match end_line { Some(e) => e, None => n };
    let end: usize = if e0 < n { e0 } else { n };
    if start >= n {
        let mut m: Vec<char> = Vec::new();
        push_str_chars(&mut m, "Start line ");
        push_decimal(&mut m, start as u128 + 1);
        push_str_chars(&mut m, " is beyond file length ");
        push_decimal(&mut m, n as u128);
        return Err(string_of(&m));
    }
    let mut out: Vec<Vec<char>> = Vec::new();
    let mut i: usize = start;
    while i < end
        invariant
            start <= i,
            i <= end || end <= start,
            end <= start ==> i == start,
            end <= n == lines.len(),
            start < n,
            ls == lines_view(lines@),
            lines_view(out@) == view_lines_spec(ls, start as int, end as int).subrange(0, (i - start) as int),
        decreases end - i,
    {
        let mut l: Vec<char> = Vec::new();
        push_padded(&mut l, i as u128 + 1, 4);
        push_str_chars(&mut l, " | ");
        push_all(&mut l, &lines[i]);
        let ghost prev = lines_view(out@);
        let ghost lv = l@;
        out.push(l);
        assert(lines_view(out@) =~= prev.push(lv));
        i += 1;
        assert(lines_view(out@) =~= view_lines_spec(ls, start as int, end as int).subrange(0, (i - start) as int));
    }
    if end > start {
        assert(i == end);
        assert(view_lines_spec(ls, start as int, end as int).subrange(0, (i - start) as int) =~= view_lines_spec(ls, start as int, end as int));
    } else {
        assert(i == start);
        assert(view_lines_spec(ls, start as int, end as int) =~= Seq::<Seq<char>>::empty());
    }
    assert(lines_view(out@) =~= view_lines_spec(ls, start as int, end as int));
    let mut m: Vec<char> = Vec::new();
    push_str_chars(&mut m, "Viewing '");
    push_str_chars(&mut m, path);
    push_str_chars(&mut m, "' (lines ");
    push_decimal(&mut m, start as u128 + 1);
    push_str_chars(&mut m, "-");
    push_decimal(&mut m, end as u128);
    push_str_chars(&mut m, "):\n");
    let body = join_chars(&out, '\n');
    push_all(&mut m, &body);
    Ok(string_of(&m))
}

/// The text of edited lines `ls`: joined with `'\n'`, and ending in a
/// newline when the text before the edit was not empty.
pub open spec fn finish_text(before: Seq<char>, ls: Seq<Seq<char>>) -> Seq<char> {
    let j = join_spec(ls, '\n');
    if before.len() > 0 && !(j.len() > 0 && j.last() == '\n') { j + "\n"@ } else { j }
}

/// `ls` with `ls[start..end]` (nothing when `end <= start`) replaced by `new`.
pub open spec fn splice_spec(ls: Seq<Seq<char>>, start: int, end: int, new: Seq<Seq<char>>) -> Seq<Seq<char>> {
    ls.subrange(0, start) + new + ls.subrange(if end > start { end } else { start }, ls.len() as int)
}

fn splice(ls: &Vec<Vec<char>>, start: usize, end: usize, new: &Vec<Vec<char>>) -> (r: Vec<Vec<char>>)
    requires
        start <= ls.len(),
        end <= ls.len(),
    ensures
        lines_view(r@) == splice_spec(lines_view(ls@), start as int, end as int, lines_view(new@)),
{
    let mut out: Vec<Vec<char>> = Vec::new();
    let mut i: usize = 0;
    while i < start
        invariant
            i <= start <= ls.len(),
            lines_view(out@) == lines_view(ls@).subrange(0, i as int),
        decreases start - i,
    {
        let ghost prev = lines_view(out@);
        let l = copy_chars(&ls[i]);
        let ghost lv = l@;
        out.push(l);
        assert(lines_view(out@) =~= prev.push(lv));
        i += 1;
        assert(lines_view(out@) =~= lines_view(ls@).subrange(0, i as int));
    }
    let ghost base = lines_view(out@);
    let mut j: usize = 0;
    while j < new.len()
        invariant
            j <= new.len(),
            lines_view(out@) == base + lines_view(new@).subrange(0, j as int),
        decreases new.len() - j,
    {
        let ghost prev = lines_view(out@);
        let l = copy_chars(&new[j]);
        let ghost lv = l@;
        out.push(l);
        assert(lines_view(out@) =~= prev.push(lv));
        j += 1;
        assert(lines_view(out@) =~= base + lines_view(new@).subrange(0, j as int));
    }
    assert(lines_view(new@).subrange(0, new.len() as int) =~= lines_view(new@));
    let ghost base2 = lines_view(out@);
    let from: usize = if end > start { end } else { start };
    let mut k: usize = from;
    while k < ls.len()
        invariant
            from <= k <= ls.len(),
            lines_view(out@) == base2 + lines_view(ls@).subrange(from as int, k as int),
        decreases ls.len() - k,
    {
        let ghost prev = lines_view(out@);
        let l = copy_chars(&ls[k]);
        let ghost lv = l@;
        out.push(l);
        assert(lines_view(out@) =~= prev.push(lv));
        k += 1;
        assert(lines_view(out@) =~= base2 + lines_view(ls@).subrange(from as int, k as int));
    }
    assert(lines_view(out@) =~= splice_spec(lines_view(ls@), start as int, end as int, lines_view(new@)));
    out
}

fn finish(before: &Vec<char>, ls: &Vec<Vec<char>>) -> (r: String)
    ensures
        r@ == finish_text(before@, lines_view(ls@)),
{
    let mut j = join_chars(ls, '\n');
    if before.len() > 0 && !(j.len() > 0 && j[j.len() - 1] == '\n') {
        j.push('\n');
    }
    proof { reveal_strlit("\n"); }
    assert(j@ =~= finish_text(before@, lines_view(ls@)));
    string_of(&j)
}

/// `content` with the lines of `text` inserted before line `line` (1-based,
/// clamped to the end).
pub open spec fn insert_lines_spec(content: Seq<char>, line: int, text: Seq<char>) -> Seq<char> {
    let ls = lines_spec(content);
    let pos = min(sat_sub(line, 1), ls.len() as int);
    finish_text(content, splice_spec(ls, pos, pos, lines_spec(text)))
}

/// Inserts the lines of `text` before line `line` of `content`; returns the
/// new text and the number of lines inserted.
pub fn insert_lines(content: &str, line: usize, text: &str) -> (r: (String, usize))
    ensures
        r.0@ == insert_lines_spec(content@, line as int, text@),
        r.1 == lines_spec(text@).len(),
{
    let before = chars_of(content);
    let ls = lines_chars(&before);
    let new = lines_chars(&chars_of(text));
    let p0: usize = if line >= 1 { line - 1 } else { 0 };
    let pos: usize = if p0 < ls.len() { p0 } else { ls.len() };
    let spliced = splice(&ls, pos, pos, &new);
    (finish(&before, &spliced), new.len())
}

/// `content` with lines `start_line..=end_line` (1-based, the end clamped)
/// replaced by the lines of `text`; an error when the start is past the end.
pub open spec fn replace_lines_spec(content: Seq<char>, start_line: int, end_line: int, text: Seq<char>) -> Result<Seq<char>, Seq<char>> {
    let ls = lines_spec(content);
    let start = sat_sub(start_line, 1);
    let end = min(end_line, ls.len() as int);
    if start >= ls.len() {
        Err("Start line "@ + decimal(start_line as nat) + " is beyond file length "@ + decimal(ls.len()))
    } else {
        Ok(finish_text(content, splice_spec(ls, start, end, lines_spec(text))))
    }
}

fn beyond_end(start_line: usize, n: usize) -> (r: String)
    ensures
        r@ == "Start line "@ + decimal(start_line as nat) + " is beyond file length "@ + decimal(n as nat),
{
    let mut m: Vec<char> = Vec::new();
    push_str_chars(&mut m, "Start line ");
    push_decimal(&mut m, start_line as u128);
    push_str_chars(&mut m, " is beyond file length ");
    push_decimal(&mut m, n as u128);
    string_of(&m)
}

/// Replaces lines `start_line..=end_line` of `content` by the lines of
/// `text`; returns the new text and the number of lines written.
pub fn replace_lines(content: &str, start_line: usize, end_line: usize, text: &str) -> (r: Result<(String, usize), String>)
    ensures
        match r {
            Ok(p) => replace_lines_spec(content@, start_line as int, end_line as int, text@) == Ok::<Seq<char>, Seq<char>>(p.0@)
                && p.1 == lines_spec(text@).len(),
            Err(e) => replace_lines_spec(content@, start_line as int, end_line as int, text@) == Err::<Seq<char>, Seq<char>>(e@),
        },
{
    let before = chars_of(content);
    let ls = lines_chars(&before);
    let n = ls.len();
    let start: usize = if start_line >= 1 { start_line - 1 } else { 0 };
    let end: usize = if end_line < n { end_line } else { n };
    if start >= n {
        return Err(beyond_end(start_line, n));
    }
    let new = lines_chars(&chars_of(text));
    let spliced = splice(&ls, start, end, &new);
    Ok((finish(&before, &spliced), new.len()))
}

/// `content` without lines `start_line..=end_line` (1-based, the end
/// clamped); an error when the start is past the end.
pub open spec fn delete_lines_spec(content: Seq<char>, start_line: int, end_line: int) -> Result<Seq<char>, Seq<char>> {
    let ls = lines_spec(content);
    let start = sat_sub(start_line, 1);
    let end = min(end_line, ls.len() as int);
    if start >= ls.len() {
        Err("Start line "@ + decimal(start_line as nat) + " is beyond file length "@ + decimal(ls.len()))
    } else {
        Ok(finish_text(content, splice_spec(ls, start, end, Seq::empty())))
    }
}

/// Deletes lines `start_line..=end_line` of `content`; returns the new text
/// and the number of lines removed.
pub fn delete_lines(content: &str, start_line: usize, end_line: usize) -> (r: Result<(String, usize), String>)
    ensures
        match r {
            Ok(p) => delete_lines_spec(content@, start_line as int, end_line as int) == Ok::<Seq<char>, Seq<char>>(p.0@)
                && p.1 == sat_sub(min(end_line as int, lines_spec(content@).len() as int), sat_sub(start_line as int, 1)),
            Err(e) => delete_lines_spec(content@, start_line as int, end_line as int) == Err::<Seq<char>, Seq<char>>(e@),
        },
{
    let before = chars_of(content);
    let ls = lines_chars(&before);
    let n = ls.len();
    let start: usize = if start_line >= 1 { start_line - 1 } else { 0 };
    let end: usize = if end_line < n { end_line } else { n };
    if start >= n {
        return Err(beyond_end(start_line, n));
    }
    let none: Vec<Vec<char>> = Vec::new();
    let spliced = splice(&ls, start, end, &none);
    assert(lines_view(none@) =~= Seq::<Seq<char>>::empty());
    let removed: usize = if end > start { end - start } else { 0 };
    Ok((finish(&before, &spliced), removed))
}


/// The text a file has in the edit session, and its earlier versions.
#[derive(Debug, Clone)]
pub struct FileState {
    pub content: String,
    pub history: Vec<String>,
}

/// The first entry of `e` for path `p`.
pub open spec fn find_from(e: Seq<(String, FileState)>, p: Seq<char>, i: int) -> Option<int>
    decreases e.len() - i,
{
    if i < 0 || i >= e.len() { None } else if e[i].0@ == p { Some(i) } else { find_from(e, p, i + 1) }
}

proof fn lemma_find_from(e: Seq<(String, FileState)>, p: Seq<char>, i: int)
    requires
        0 <= i,
    ensures
        find_from(e, p, i) matches Some(k) ==> i <= k < e.len() && e[k].0@ == p,
    decreases e.len() - i,
{
    if i < e.len() && e[i].0@ != p {
        lemma_find_from(e, p, i + 1);
    }
}

proof fn lemma_find_same_keys(a: Seq<(String, FileState)>, b: Seq<(String, FileState)>, p: Seq<char>, i: int)
    requires
        a.len() == b.len(),
        forall|j: int| 0 <= j < a.len() ==> (#[trigger] a[j]).0@ == b[j].0@,
    ensures
        find_from(a, p, i) == find_from(b, p, i),
    decreases a.len() - i,
{
    if 0 <= i < a.len() {
        lemma_find_same_keys(a, b, p, i + 1);
    }
}

/// The line editor: an edit session over files under
/// `working_dir`.
#[derive(Debug, Clone)]
pub struct FileEditorTool {
    working_dir: String,
    states: Vec<(String, FileState)>,
}

pub open spec fn strings_of(v: Seq<String>) -> Seq<Seq<char>> {
    Seq::new(v.len(), |i: int| v[i]@)
}

impl FileEditorTool {
    /// The directory the edited paths are relative to.
    pub closed spec fn dir(&self) -> Seq<char> {
        self.working_dir@
    }

    /// The directory the edited paths are relative to.
    pub fn working_dir(&self) -> (r: &String)
        ensures
            r@ == self.dir(),
    {
        &self.working_dir
    }

    /// The session's current text of `p`, if `p` was loaded.
    pub closed spec fn current(&self, p: Seq<char>) -> Option<Seq<char>> {
        match find_from(self.states@, p, 0) {
            Some(i) => Some(self.states@[i].1.content@),
            None => None,
        }
    }

    /// The earlier versions of `p` in the session.
    pub closed spec fn history(&self, p: Seq<char>) -> Seq<Seq<char>> {
        match find_from(self.states@, p, 0) {
            Some(i) => strings_of(self.states@[i].1.history@),
            None => Seq::empty(),
        }
    }

    /// An editor over `working_dir` with no file loaded.
    pub fn new(working_dir: String) -> (r: Self)
        ensures
            r.dir() == working_dir@,
            forall|p: Seq<char>| r.current(p) is None,
    {
        FileEditorTool { working_dir, states: Vec::new() }
    }

    fn find(&self, path: &str) -> (r: Option<usize>)
        ensures
            r matches Some(i) ==> find_from(self.states@, path@, 0) == Some(i as int) && i < self.states@.len(),
            r is None ==> find_from(self.states@, path@, 0) is None,
    {
        let mut i: usize = 0;
        while i < self.states.len()
            invariant
                i <= self.states.len(),
                find_from(self.states@, path@, 0) == find_from(self.states@, path@, i as int),
            decreases self.states.len() - i,
        {
            if str_eq(self.states[i].0.as_str(), path) {
                return Some(i);
            }
            i += 1;
        }
        None
    }

    /// Whether `path` is in the session.
    pub fn is_loaded(&self, path: &str) -> (r: bool)
        ensures
            r == self.current(path@) is Some,
    {
        self.find(path).is_some()
    }

    /// Starts the session of `path` with its text `content` as read from
    /// disk, which is also its first earlier version.
    pub fn load_file(&mut self, path: &str, content: String)
        requires
            old(self).current(path@) is None,
        ensures
            final(self).dir() == old(self).dir(),
            final(self).current(path@) == Some(content@),
            final(self).history(path@) == seq![content@],
            forall|q: Seq<char>| q != path@ ==> final(self).current(q) == old(self).current(q) && final(self).history(q) == old(self).history(q),
    {
        let ghost old_states = self.states@;
        let st = FileState { content: content.clone(), history: vec![content] };
        self.states.push((string_of(&chars_of(path)), st));
        proof {
            let n = old_states.len() as int;
            assert forall|q: Seq<char>| find_from(self.states@, q, 0) == (if find_from(old_states, q, 0) is Some { find_from(old_states, q, 0) } else if q == path@ { Some(n) } else { None }) by {
                lemma_find_push(old_states, self.states@, q, 0);
            }
            assert(strings_of(self.states@[n].1.history@) =~= seq![content@]);
            assert forall|q: Seq<char>| q != path@ implies self.current(q) == old(self).current(q) && self.history(q) == old(self).history(q) by {
                lemma_find_from(old_states, q, 0);
            }
        }
    }

    proof fn lemma_set_same_key(a: Seq<(String, FileState)>, b: Seq<(String, FileState)>, i: int, p: Seq<char>)
        requires
            0 <= i < a.len(),
            b == a.update(i, b[i]),
            b[i].0@ == a[i].0@,
        ensures
            forall|q: Seq<char>| find_from(a, q, 0) == find_from(b, q, 0),
    {
        assert forall|q: Seq<char>| find_from(a, q, 0) == find_from(b, q, 0) by {
            assert forall|j: int| 0 <= j < a.len() implies (#[trigger] a[j]).0@ == b[j].0@ by {
                if j != i {
                    assert(b[j] == a[j]);
                }
            }
            lemma_find_same_keys(a, b, q, 0);
        }
    }

    /// Replaces the session text of `path` (entry `i`) by `new_content`,
    /// keeping the old text as its latest earlier version.
    fn save_file_state(&mut self, i: usize, new_content: String)
        requires
            i < old(self).states@.len(),
        ensures
            final(self).dir() == old(self).dir(),
            final(self).states@.len() == old(self).states@.len(),
            forall|q: Seq<char>| find_from(final(self).states@, q, 0) == find_from(old(self).states@, q, 0),
            final(self).states@[i as int].1.content@ == new_content@,
            strings_of(final(self).states@[i as int].1.history@)
                == strings_of(old(self).states@[i as int].1.history@).push(old(self).states@[i as int].1.content@),
            forall|j: int| 0 <= j < old(self).states@.len() && j != i ==> final(self).states@[j] == old(self).states@[j],
    {
        let key = self.states[i].0.clone();
        let mut hist: Vec<String> = Vec::new();
        let mut k: usize = 0;
        while k < self.states[i].1.history.len()
            invariant
                k <= self.states@[i as int].1.history@.len(),
                i < self.states@.len(),
                self.states@ == old(self).states@,
                strings_of(hist@) == strings_of(self.states@[i as int].1.history@).subrange(0, k as int),
            decreases self.states@[i as int].1.history@.len() - k,
        {
            let c = self.states[i].1.history[k].clone();
            let ghost prev = strings_of(hist@);
            hist.push(c);
            assert(strings_of(hist@) =~= prev.push(self.states@[i as int].1.history@[k as int]@));
            k += 1;
            assert(strings_of(hist@) =~= strings_of(self.states@[i as int].1.history@).subrange(0, k as int));
        }
        let ghost prev = strings_of(hist@);
        let cur = self.states[i].1.content.clone();
        hist.push(cur);
        assert(strings_of(hist@) =~= prev.push(old(self).states@[i as int].1.content@));
        assert(prev =~= strings_of(old(self).states@[i as int].1.history@));
        self.states.set(i, (key, FileState { content: new_content, history: hist }));
        proof { Self::lemma_set_same_key(old(self).states@, self.states@, i as int, key@); }
    }

    /// Views lines `start_line..=end_line` of a loaded file.
    pub fn view_operation(&self, path: &str, start_line: Option<usize>, end_line: Option<usize>) -> (r: Result<String, String>)
        requires
            self.current(path@) is Some,
        ensures
            match r {
                Ok(s) => view_operation_spec(self.current(path@)->0, path@, start_line, end_line) == Ok::<Seq<char>, Seq<char>>(s@),
                Err(e) => view_operation_spec(self.current(path@)->0, path@, start_line, end_line) == Err::<Seq<char>, Seq<char>>(e@),
            },
    {
        let i = self.find(path).unwrap();
        view_lines(self.states[i].1.content.as_str(), path, start_line, end_line)
    }

    /// Inserts the lines of `content` before line `line` of a loaded file.
    /// Returns the report and the new text to write.
    pub fn insert_operation(&mut self, path: &str, line: usize, content: &str) -> (r: (String, String))
        requires
            old(self).current(path@) is Some,
        ensures
            final(self).dir() == old(self).dir(),
            r.1@ == insert_lines_spec(old(self).current(path@)->0, line as int, content@),
            final(self).current(path@) == Some(r.1@),
            final(self).history(path@) == old(self).history(path@).push(old(self).current(path@)->0),
            forall|q: Seq<char>| q != path@ ==> final(self).current(q) == old(self).current(q) && final(self).history(q) == old(self).history(q),
            r.0@ == "Inserted "@ + decimal(lines_spec(content@).len()) + " line(s) at line "@ + decimal(line as nat) + " in '"@ + path@ + "'"@,
    {
        let i = self.find(path).unwrap();
        let (new_text, k) = insert_lines(self.states[i].1.content.as_str(), line, content);
        self.save_file_state(i, new_text.clone());
        proof {
            lemma_find_from(old(self).states@, path@, 0);
            assert forall|q: Seq<char>| q != path@ implies self.current(q) == old(self).current(q) && self.history(q) == old(self).history(q) by {
                lemma_find_from(old(self).states@, q, 0);
            }
        }
        let mut m: Vec<char> = Vec::new();
        push_str_chars(&mut m, "Inserted ");
        push_decimal(&mut m, k as u128);
        push_str_chars(&mut m, " line(s) at line ");
        push_decimal(&mut m, line as u128);
        push_str_chars(&mut m, " in '");
        push_str_chars(&mut m, path);
        push_str_chars(&mut m, "'");
        (string_of(&m), new_text)
    }

    /// Replaces lines `start_line..=end_line` of a loaded file by the lines
    /// of `content`. Returns the report and the new text to write.
    pub fn replace_operation(&mut self, path: &str, start_line: usize, end_line: usize, content: &str) -> (r: Result<(String, String), String>)
        requires
            old(self).current(path@) is Some,
        ensures
            final(self).dir() == old(self).dir(),
            match r {
                Ok(p) => replace_lines_spec(old(self).current(path@)->0, start_line as int, end_line as int, content@) == Ok::<Seq<char>, Seq<char>>(p.1@)
                    && final(self).current(path@) == Some(p.1@)
                    && final(self).history(path@) == old(self).history(path@).push(old(self).current(path@)->0)
                    && p.0@ == "Replaced lines "@ + decimal(start_line as nat) + "-"@ + decimal(end_line as nat) + " with "@
                        + decimal(lines_spec(content@).len()) + " line(s) in '"@ + path@ + "'"@,
                Err(e) => replace_lines_spec(old(self).current(path@)->0, start_line as int, end_line as int, content@) == Err::<Seq<char>, Seq<char>>(e@)
                    && final(self).current(path@) == old(self).current(path@) && final(self).history(path@) == old(self).history(path@),
            },
            forall|q: Seq<char>| q != path@ ==> final(self).current(q) == old(self).current(q) && final(self).history(q) == old(self).history(q),
    {
        let i = self.find(path).unwrap();
        let (new_text, k) = match replace_lines(self.states[i].1.content.as_str(), start_line, end_line, content) {
            Ok(p) => p,
            Err(e) => { return Err(e); },
        };
        self.save_file_state(i, new_text.clone());
        proof {
            lemma_find_from(old(self).states@, path@, 0);
            assert forall|q: Seq<char>| q != path@ implies self.current(q) == old(self).current(q) && self.history(q) == old(self).history(q) by {
                lemma_find_from(old(self).states@, q, 0);
            }
        }
        let mut m: Vec<char> = Vec::new();
        push_str_chars(&mut m, "Replaced lines ");
        push_decimal(&mut m, start_line as u128);
        push_str_chars(&mut m, "-");
        push_decimal(&mut m, end_line as u128);
        push_str_chars(&mut m, " with ");
        push_decimal(&mut m, k as u128);
        push_str_chars(&mut m, " line(s) in '");
        push_str_chars(&mut m, path);
        push_str_chars(&mut m, "'");
        Ok((string_of(&m), new_text))
    }

    /// Deletes lines `start_line..=end_line` of a loaded file. Returns the
    /// report and the new text to write.
    pub fn delete_operation(&mut self, path: &str, start_line: usize, end_line: usize) -> (r: Result<(String, String), String>)
        requires
            old(self).current(path@) is Some,
        ensures
            final(self).dir() == old(self).dir(),
            match r {
                Ok(p) => delete_lines_spec(old(self).current(path@)->0, start_line as int, end_line as int) == Ok::<Seq<char>, Seq<char>>(p.1@)
                    && final(self).current(path@) == Some(p.1@)
                    && final(self).history(path@) == old(self).history(path@).push(old(self).current(path@)->0)
                    && p.0@ == "Deleted "@ + decimal(sat_sub(min(end_line as int, lines_spec(old(self).current(path@)->0).len() as int), sat_sub(start_line as int, 1)) as nat)
                        + " line(s) ("@ + decimal(start_line as nat) + "-"@ + decimal(end_line as nat) + ") from '"@ + path@ + "'"@,
                Err(e) => delete_lines_spec(old(self).current(path@)->0, start_line as int, end_line as int) == Err::<Seq<char>, Seq<char>>(e@)
                    && final(self).current(path@) == old(self).current(path@) && final(self).history(path@) == old(self).history(path@),
            },
            forall|q: Seq<char>| q != path@ ==> final(self).current(q) == old(self).current(q) && final(self).history(q) == old(self).history(q),
    {
        let i = self.find(path).unwrap();
        let (new_text, k) = match delete_lines(self.states[i].1.content.as_str(), start_line, end_line) {
            Ok(p) => p,
            Err(e) => { return Err(e); },
        };
        self.save_file_state(i, new_text.clone());
        proof {
            lemma_find_from(old(self).states@, path@, 0);
            assert forall|q: Seq<char>| q != path@ implies self.current(q) == old(self).current(q) && self.history(q) == old(self).history(q) by {
                lemma_find_from(old(self).states@, q, 0);
            }
        }
        let mut m: Vec<char> = Vec::new();
        push_str_chars(&mut m, "Deleted ");
        push_decimal(&mut m, k as u128);
        push_str_chars(&mut m, " line(s) (");
        push_decimal(&mut m, start_line as u128);
        push_str_chars(&mut m, "-");
        push_decimal(&mut m, end_line as u128);
        push_str_chars(&mut m, ") from '");
        push_str_chars(&mut m, path);
        push_str_chars(&mut m, "'");
        Ok((string_of(&m), new_text))
    }
}

impl FileEditorTool {
    /// Restores the latest earlier version of `path`. Returns the report and
    /// the restored text to write.
    pub fn undo_operation(&mut self, path: &str) -> (r: Result<(String, String), String>)
        ensures
            final(self).dir() == old(self).dir(),
            old(self).current(path@) is None ==> (r matches Err(e) && e@ == "File '"@ + path@ + "' not in edit session"@),
            old(self).current(path@) is Some && old(self).history(path@).len() == 0 ==> (r matches Err(e) && e@ == "No history available for '"@ + path@ + "'"@),
            old(self).current(path@) is Some && old(self).history(path@).len() > 0 ==> (r matches Ok(p)
                && p.0@ == "Undid last change to '"@ + path@ + "'"@
                && p.1@ == old(self).history(path@).last()
                && final(self).current(path@) == Some(p.1@)
                && final(self).history(path@) == old(self).history(path@).drop_last()),
            r is Err ==> final(self).current(path@) == old(self).current(path@) && final(self).history(path@) == old(self).history(path@),
            forall|q: Seq<char>| q != path@ ==> final(self).current(q) == old(self).current(q) && final(self).history(q) == old(self).history(q),
    {
        let i = match self.find(path) {
            Some(i) => i,
            None => {
                let mut m: Vec<char> = Vec::new();
                push_str_chars(&mut m, "File '");
                push_str_chars(&mut m, path);
                push_str_chars(&mut m, "' not in edit session");
                return Err(string_of(&m));
            },
        };
        let n = self.states[i].1.history.len();
        if n == 0 {
            let mut m: Vec<char> = Vec::new();
            push_str_chars(&mut m, "No history available for '");
            push_str_chars(&mut m, path);
            push_str_chars(&mut m, "'");
            return Err(string_of(&m));
        }
        let mut hist: Vec<String> = Vec::new();
        let mut k: usize = 0;
        while k < n - 1
            invariant
                n == self.states@[i as int].1.history@.len(),
                k <= n - 1,
                i < self.states@.len(),
                self.states@ == old(self).states@,
                strings_of(hist@) == strings_of(self.states@[i as int].1.history@).subrange(0, k as int),
            decreases n - 1 - k,
        {
            let c = self.states[i].1.history[k].clone();
            let ghost prev = strings_of(hist@);
            hist.push(c);
            assert(strings_of(hist@) =~= prev.push(self.states@[i as int].1.history@[k as int]@));
            k += 1;
            assert(strings_of(hist@) =~= strings_of(self.states@[i as int].1.history@).subrange(0, k as int));
        }
        assert(strings_of(hist@) =~= strings_of(old(self).states@[i as int].1.history@).drop_last());
        let prev_text = self.states[i].1.history[n - 1].clone();
        let key = self.states[i].0.clone();
        self.states.set(i, (key, FileState { content: prev_text.clone(), history: hist }));
        proof {
            Self::lemma_set_same_key(old(self).states@, self.states@, i as int, key@);
            lemma_find_from(old(self).states@, path@, 0);
            assert forall|q: Seq<char>| q != path@ implies self.current(q) == old(self).current(q) && self.history(q) == old(self).history(q) by {
                lemma_find_from(old(self).states@, q, 0);
            }
        }
        let mut m: Vec<char> = Vec::new();
        push_str_chars(&mut m, "Undid last change to '");
        push_str_chars(&mut m, path);
        push_str_chars(&mut m, "'");
        Ok((string_of(&m), prev_text))
    }
}

proof fn lemma_find_push(a: Seq<(String, FileState)>, b: Seq<(String, FileState)>, q: Seq<char>, i: int)
    requires
        0 <= i <= a.len(),
        b.len() == a.len() + 1,
        forall|j: int| 0 <= j < a.len() ==> b[j] == a[j],
    ensures
        find_from(b, q, i) == (if find_from(a, q, i) is Some { find_from(a, q, i) } else if b[a.len() as int].0@ == q { Some(a.len() as int) } else { None }),
    decreases a.len() - i,
{
    if i < a.len() {
        lemma_find_push(a, b, q, i + 1);
    } else {
        if b[a.len() as int].0@ != q {
            assert(find_from(b, q, i + 1) is None);
        }
    }
}

} // verus!
