use vstd::prelude::*;

use crate::text::push_char;

verus! {

/// Splitting text at `\n`: the lines finished so far and the one being read.
pub open spec fn split_state(s: Seq<char>) -> (Seq<Seq<char>>, Seq<char>)
    decreases s.len(),
{
    if s.len() == 0 {
        (Seq::empty(), Seq::empty())
    } else {
        let (done, cur) = split_state(s.drop_last());
        if s.last() == '\n' {
            (done.push(cur), Seq::empty())
        } else {
            (done, cur.push(s.last()))
        }
    }
}

/// The lines of a text, split at `\n`; the last one may be empty.
pub open spec fn lines(s: Seq<char>) -> Seq<Seq<char>> {
    split_state(s).0.push(split_state(s).1)
}

/// A line without the `\r` that ends it, if any.
pub open spec fn strip_cr(l: Seq<char>) -> Seq<char> {
    if l.len() > 0 && l.last() == '\r' {
        l.drop_last()
    } else {
        l
    }
}

pub open spec fn include_prefix() -> Seq<char> {
    seq!['i', 'n', 'c', 'l', 'u', 'd', 'e', ' ']
}

/// A line of the archive list that names an archive: not empty, no
/// comment (`#`) and no `include ` directive.
pub open spec fn is_archive_line(l: Seq<char>) -> bool {
    &&& l.len() > 0
    &&& l[0] != '#'
    &&& !(l.len() >= 8 && l.take(8) == include_prefix())
}

/// The archive paths that an archive list names, in order.
pub open spec fn archive_lines(s: Seq<char>) -> Seq<Seq<char>> {
    lines(s).map_values(|l: Seq<char>| strip_cr(l)).filter(|l: Seq<char>| is_archive_line(l))
}

fn line_is_archive(l: &Vec<char>) -> (r: bool)
    ensures
        r == is_archive_line(l@),
{
    if l.len() == 0 || l[0] == '#' {
        return false;
    }
    if l.len() < 8 {
        return true;
    }
    let is_include = l[0] == 'i' && l[1] == 'n' && l[2] == 'c' && l[3] == 'l' && l[4] == 'u' && l[5]
        == 'd' && l[6] == 'e' && l[7] == ' ';
    proof {
        let t = l@.take(8);
        assert forall|j: int| 0 <= j < 8 implies t[j] == l@[j] by {}
        if is_include {
            assert(t =~= include_prefix());
        } else {
            if t == include_prefix() {
                assert(t[0] == 'i' && t[1] == 'n' && t[2] == 'c' && t[3] == 'l');
                assert(t[4] == 'u' && t[5] == 'd' && t[6] == 'e' && t[7] == ' ');
            }
        }
    }
    !is_include
}

fn finish_line(out: &mut Vec<String>, line: &Vec<char>)
    ensures
        is_archive_line(strip_cr(line@)) ==> final(out)@.map_values(|s: String| s@) == old(
            out,
        )@.map_values(|s: String| s@).push(strip_cr(line@)),
        !is_archive_line(strip_cr(line@)) ==> final(out)@ == old(out)@,
{
    let mut len = line.len();
    if len > 0 && line[len - 1] == '\r' {
        len -= 1;
    }
    let mut l: Vec<char> = Vec::new();
    let mut i: usize = 0;
    while i < len
        invariant
            len <= line.len(),
            i <= len,
            l@ == line@.take(i as int),
        decreases len - i,
    {
        l.push(line[i]);
        assert(line@.take(i + 1) == line@.take(i as int).push(line@[i as int]));
        i += 1;
    }
    assert(l@ == strip_cr(line@));
    if line_is_archive(&l) {
        let mut s = String::new();
        let mut j: usize = 0;
        while j < l.len()
            invariant
                j <= l.len(),
                s@ == l@.take(j as int),
            decreases l.len() - j,
        {
            push_char(&mut s, l[j]);
            assert(l@.take(j + 1) == l@.take(j as int).push(l@[j as int]));
            j += 1;
        }
        assert(l@.take(j as int) == l@);
        let ghost before = out@;
        out.push(s);
        assert(out@.map_values(|s: String| s@) =~= before.map_values(|s: String| s@).push(l@));
    }
}

/// The archive paths named by the text of an archive list, in order: each
/// line without its ending, skipping empty lines, comments and `include `
/// directives.
pub fn parse_datafile_inner(text: &str) -> (r: Vec<String>)
    ensures
        r@.map_values(|s: String| s@) == archive_lines(text@),
{
    let mut out: Vec<String> = Vec::new();
    let mut line: Vec<char> = Vec::new();
    for c in it: text.chars()
        invariant
            it.seq() == text@,
            split_state(text@.take(it.index() as int)).1 == line@,
            out@.map_values(|s: String| s@) == split_state(text@.take(it.index() as int)).0.map_values(
                |l: Seq<char>| strip_cr(l),
            ).filter(|l: Seq<char>| is_archive_line(l)),
    {
        let ghost k = it.index();
        assert(text@.take(k + 1).drop_last() == text@.take(k as int));
        assert(text@.take(k + 1).last() == c);
        if c == '\n' {
            let ghost done = split_state(text@.take(k as int)).0;
            finish_line(&mut out, &line);
            proof {
                let stripped = done.map_values(|l: Seq<char>| strip_cr(l));
                assert(done.push(line@).map_values(|l: Seq<char>| strip_cr(l)) =~= stripped.push(
                    strip_cr(line@),
                ));
                stripped.lemma_filter_push(strip_cr(line@), |l: Seq<char>| is_archive_line(l));
            }
            line = Vec::new();
        } else {
            line.push(c);
        }
    }
    assert(text@.take(text@.len() as int) == text@);
    let ghost done = split_state(text@).0;
    finish_line(&mut out, &line);
    proof {
        let stripped = done.map_values(|l: Seq<char>| strip_cr(l));
        assert(done.push(line@).map_values(|l: Seq<char>| strip_cr(l)) =~= stripped.push(
            strip_cr(line@),
        ));
        stripped.lemma_filter_push(strip_cr(line@), |l: Seq<char>| is_archive_line(l));
    }
    out
}

} // verus!
