//! Renderings shared by the file tools: `cat -n` style numbered lines.

use vstd::prelude::*;
use crate::text::{
    chars_of, decimal, join_chars, join_spec, lines_chars, lines_spec, lines_view, pad_left,
    push_all, push_padded, push_str_chars, string_of,
};

verus! {

/// Each line prefixed by its number (from `start`) right-aligned in six
/// columns and a tab.
pub open spec fn numbered_spec(ls: Seq<Seq<char>>, start: int) -> Seq<Seq<char>> {
    Seq::new(ls.len(), |i: int| pad_left(decimal((i + start) as nat), 6) + "\t"@ + ls[i])
}

/// The lines of `content`, numbered from `start`, one per line.
pub open spec fn numbered_output_spec(content: Seq<char>, start: int) -> Seq<char> {
    join_spec(numbered_spec(lines_spec(content), start), '\n')
}

/// The `cat -n` rendering of `content` described as `desc`.
pub open spec fn cat_output_spec(content: Seq<char>, desc: Seq<char>, start: int) -> Seq<char> {
    "Here's the result of running `cat -n` on "@ + desc + ":\n"@ + numbered_output_spec(content, start) + "\n"@
}

/// The `cat -n` rendering of the lines `ls`, numbered from `start`, under a
/// header naming `desc`.
pub open spec fn cat_lines_spec(ls: Seq<Seq<char>>, desc: Seq<char>, start: int) -> Seq<char> {
    "Here's the result of running `cat -n` on "@ + desc + ":\n"@ + join_spec(numbered_spec(ls, start), '\n') + "\n"@
}

fn numbered_chars(content: &str, start_line: usize) -> (r: Vec<char>)
    ensures
        r@ == numbered_output_spec(content@, start_line as int),
{
    let chars = chars_of(content);
    let lines = lines_chars(&chars);
    numbered_lines(&lines, start_line)
}

fn numbered_lines(lines: &Vec<Vec<char>>, start_line: usize) -> (r: Vec<char>)
    ensures
        r@ == join_spec(numbered_spec(lines_view(lines@), start_line as int), '\n'),
{
    let ghost lv = lines_view(lines@);
    let mut out: Vec<Vec<char>> = Vec::new();
    let mut i: usize = 0;
    while i < lines.len()
        invariant
            i <= lines.len(),
            lv == lines_view(lines@),
            lines_view(out@) == numbered_spec(lv, start_line as int).subrange(0, i as int),
        decreases lines.len() - i,
    {
        let mut l: Vec<char> = Vec::new();
        push_padded(&mut l, i as u128 + start_line as u128, 6);
        push_str_chars(&mut l, "\t");
        push_all(&mut l, &lines[i]);
        let ghost prev = lines_view(out@);
        let ghost lval = l@;
        out.push(l);
        assert(lines_view(out@) =~= prev.push(lval));
        i += 1;
        assert(lines_view(out@) =~= numbered_spec(lv, start_line as int).subrange(0, i as int));
    }
    assert(numbered_spec(lv, start_line as int).subrange(0, lines.len() as int) =~= numbered_spec(lv, start_line as int));
    join_chars(&out, '\n')
}

/// The lines of `content`, numbered from `start_line`, one per line.
pub fn make_numbered_output(content: &str, start_line: usize) -> (r: String)
    ensures
        r@ == numbered_output_spec(content@, start_line as int),
{
    string_of(&numbered_chars(content, start_line))
}

/// The `cat -n` rendering of `snippet_content`, numbered from `start_line`,
/// under a header naming `snippet_description`.
pub fn make_output(snippet_content: &str, snippet_description: &str, start_line: usize) -> (r: String)
    ensures
        r@ == cat_output_spec(snippet_content@, snippet_description@, start_line as int),
{
    let mut out: Vec<char> = Vec::new();
    push_str_chars(&mut out, "Here's the result of running `cat -n` on ");
    push_str_chars(&mut out, snippet_description);
    push_str_chars(&mut out, ":\n");
    let body = numbered_chars(snippet_content, start_line);
    push_all(&mut out, &body);
    push_str_chars(&mut out, "\n");
    string_of(&out)
}


/// The `cat -n` rendering of the lines `lines`, numbered from
/// `start_line`, under a header naming `description`; each line is shown as
/// it is, an empty last line included.
pub fn make_output_lines(lines: &Vec<Vec<char>>, description: &str, start_line: usize) -> (r: String)
    ensures
        r@ == cat_lines_spec(lines_view(lines@), description@, start_line as int),
{
    let mut out: Vec<char> = Vec::new();
    push_str_chars(&mut out, "Here's the result of running `cat -n` on ");
    push_str_chars(&mut out, description);
    push_str_chars(&mut out, ":\n");
    let body = numbered_lines(lines, start_line);
    push_all(&mut out, &body);
    push_str_chars(&mut out, "\n");
    string_of(&out)
}

} // verus!
