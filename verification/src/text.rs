//! Line-oriented text helpers shared by the patcher and the response model.
use vstd::prelude::*;

verus! {

/// The lines of `v`, each taken by its view.
pub open spec fn strs(v: Seq<String>) -> Seq<Seq<char>> {
    v.map_values(|s: String| s@)
}

/// A line that ended in a newline loses a carriage return just before it.
pub open spec fn strip_cr(line: Seq<char>) -> Seq<char> {
    if line.len() > 0 && line.last() == '\r' {
        line.drop_last()
    } else {
        line
    }
}

/// Scanning `s` from the left: the lines finished by a newline so far,
/// and the characters of the line not finished yet.
pub open spec fn scan_lines(s: Seq<char>) -> (Seq<Seq<char>>, Seq<char>)
    decreases s.len(),
{
    if s.len() == 0 {
        (Seq::empty(), Seq::empty())
    } else {
        let (done, cur) = scan_lines(s.drop_last());
        if s.last() == '\n' {
            (done.push(strip_cr(cur)), Seq::empty())
        } else {
            (done, cur.push(s.last()))
        }
    }
}

/// The lines of a text as `str::lines` gives them: split at `\n` (a `\r` just
/// before it is dropped too); a final line ending is optional.
pub open spec fn str_lines(s: Seq<char>) -> Seq<Seq<char>> {
    let (done, cur) = scan_lines(s);
    if cur.len() == 0 {
        done
    } else {
        done.push(cur)
    }
}

/// Trusted: collects the characters into a `String` through std's
/// `FromIterator<&char>` for `String`; the contract claims that the string
/// holds exactly these characters, in order, as std documents.
#[verifier::external_body]
pub(crate) fn string_from_chars(v: &Vec<char>) -> (r: String)
    ensures
        r@ == v@,
{
    v.iter().collect()
}

fn strip_cr_exec(v: &mut Vec<char>)
    ensures
        final(v)@ == strip_cr(old(v)@),
{
    let n = v.len();
    if n > 0 && v[n - 1] == '\r' {
        v.pop();
    }
}

/// Splits a text into its lines, as `str::lines` does.
pub fn split_lines(s: &str) -> (r: Vec<String>)
    ensures
        strs(r@) == str_lines(s@),
{
    let mut done: Vec<String> = Vec::new();
    let mut cur: Vec<char> = Vec::new();
    let chars = s.chars();
    for c in it: chars
        invariant
            it.seq() == s@,
            strs(done@) == scan_lines(s@.take(it.index() as int)).0,
            cur@ == scan_lines(s@.take(it.index() as int)).1,
    {
        proof {
            assert(s@.take(it.index() + 1).drop_last() =~= s@.take(it.index() as int));
        }
        if c == '\n' {
            strip_cr_exec(&mut cur);
            let line = string_from_chars(&cur);
            done.push(line);
            cur = Vec::new();
            assert(strs(done@) =~= scan_lines(s@.take(it.index() + 1)).0);
        } else {
            cur.push(c);
            assert(strs(done@) =~= scan_lines(s@.take(it.index() + 1)).0);
        }
    }
    assert(s@.take(s@.len() as int) =~= s@);
    if cur.len() > 0 {
        let line = string_from_chars(&cur);
        done.push(line);
        assert(strs(done@) =~= str_lines(s@));
    }
    done
}

} // verus!

verus! {

/// A text made of the given lines, each followed by a newline.
pub open spec fn render(lines: Seq<Seq<char>>) -> Seq<char>
    decreases lines.len(),
{
    if lines.len() == 0 {
        Seq::empty()
    } else {
        render(lines.drop_last()) + lines.last().push('\n')
    }
}

/// The lines joined by `sep`, as `[&str]::join` gives them.
pub open spec fn join(lines: Seq<Seq<char>>, sep: Seq<char>) -> Seq<char>
    decreases lines.len(),
{
    if lines.len() == 0 {
        Seq::empty()
    } else if lines.len() == 1 {
        lines[0]
    } else {
        join(lines.drop_last(), sep) + sep + lines.last()
    }
}

pub proof fn lemma_render_concat(a: Seq<Seq<char>>, b: Seq<Seq<char>>)
    ensures
        render(a + b) == render(a) + render(b),
    decreases b.len(),
{
    if b.len() == 0 {
        assert(a + b =~= a);
        assert(render(b) =~= Seq::<char>::empty());
        assert(render(a) + render(b) =~= render(a));
    } else {
        lemma_render_concat(a, b.drop_last());
        assert((a + b).drop_last() =~= a + b.drop_last());
        assert((a + b).last() == b.last());
    }
}

/// The characters of `line` followed by a newline are appended to `out`.
pub fn push_line(out: &mut String, line: &str)
    ensures
        final(out)@ == old(out)@ + line@.push('\n'),
{
    out.append(line);
    let nl = "\n";
    proof {
        reveal_strlit("\n");
    }
    out.append(nl);
    assert(final(out)@ =~= old(out)@ + line@.push('\n'));
}

/// Appends every line of `lines`, each followed by a newline.
pub fn push_lines(out: &mut String, lines: &Vec<String>)
    ensures
        final(out)@ == old(out)@ + render(strs(lines@)),
{
    let ghost start = out@;
    let n = lines.len();
    for j in 0..n
        invariant
            n == lines.len(),
            out@ == start + render(strs(lines@.take(j as int))),
    {
        push_line(out, lines[j].as_str());
        proof {
            assert(strs(lines@.take(j + 1)).drop_last() =~= strs(lines@.take(j as int)));
            assert(strs(lines@.take(j + 1)).last() == lines@[j as int]@);
        }
    }
    assert(lines@.take(n as int) =~= lines@);
}

/// Joins the lines with `sep` between consecutive ones.
pub fn join_lines(lines: &Vec<String>, sep: &str) -> (r: String)
    ensures
        r@ == join(strs(lines@), sep@),
{
    let mut r = String::new();
    let n = lines.len();
    for j in 0..n
        invariant
            n == lines.len(),
            r@ == join(strs(lines@.take(j as int)), sep@),
    {
        proof {
            assert(strs(lines@.take(j + 1)).drop_last() =~= strs(lines@.take(j as int)));
            assert(strs(lines@.take(j + 1)).last() == lines@[j as int]@);
        }
        if j > 0 {
            r.append(sep);
        } else {
            assert(r@ =~= Seq::<char>::empty());
        }
        r.append(lines[j].as_str());
        proof {
            if j == 0 {
                assert(strs(lines@.take(1)) =~= seq![lines@[0]@]);
                assert(r@ =~= lines@[0]@);
            }
        }
    }
    assert(lines@.take(n as int) =~= lines@);
    r
}

} // verus!

verus! {

/// Scanning a text without carriage returns loses nothing: the finished lines,
/// each with its newline, followed by the unfinished one, give back the text.
proof fn lemma_scan_keeps_text(s: Seq<char>)
    requires
        forall|i: int| 0 <= i < s.len() ==> s[i] != '\r',
    ensures
        render(scan_lines(s).0) + scan_lines(s).1 == s,
        forall|i: int| 0 <= i < scan_lines(s).1.len() ==> scan_lines(s).1[i] != '\r',
    decreases s.len(),
{
    if s.len() > 0 {
        let t = s.drop_last();
        lemma_scan_keeps_text(t);
        let (done, cur) = scan_lines(t);
        if s.last() == '\n' {
            assert(strip_cr(cur) == cur);
            assert(done.push(cur).drop_last() =~= done);
            assert(render(done.push(cur)) == render(done) + cur.push('\n'));
            assert(render(done) + cur.push('\n') =~= (render(done) + cur).push('\n'));
        } else {
            assert(render(done) + cur.push(s.last()) =~= (render(done) + cur).push(s.last()));
        }
        assert(t.push(s.last()) =~= s);
    }
}

/// A text without carriage returns that is empty or ends in a newline is
/// given back by its lines, each followed by a newline.
pub proof fn lemma_lines_render_round_trip(s: Seq<char>)
    requires
        forall|i: int| 0 <= i < s.len() ==> s[i] != '\r',
        s.len() == 0 || s.last() == '\n',
    ensures
        render(str_lines(s)) == s,
{
    lemma_scan_keeps_text(s);
    if s.len() > 0 {
        let (done, cur) = scan_lines(s.drop_last());
        assert(scan_lines(s).1.len() == 0);
    }
    assert(render(scan_lines(s).0) + scan_lines(s).1 =~= render(scan_lines(s).0));
}

} // verus!

verus! {

/// A final line ending is optional: a text without one has the same lines as
/// the text with one (unless it ends in a lone carriage return, which a
/// final line ending would remove).
pub proof fn lemma_final_newline_optional(s: Seq<char>)
    requires
        s.len() > 0,
        s.last() != '\n',
        s.last() != '\r',
    ensures
        str_lines(s.push('\n')) == str_lines(s),
{
    assert(s.push('\n').drop_last() =~= s);
    let (done, cur) = scan_lines(s);
    assert(cur.len() > 0 && cur.last() == s.last()) by {
        assert(s.drop_last().push(s.last()) =~= s);
    }
}

} // verus!

verus! {

/// Every character of `s` is a newline.
pub open spec fn only_newlines(s: Seq<char>) -> bool {
    forall|i: int| 0 <= i < s.len() ==> s[i] == '\n'
}

/// The lines that a replacement text stands for: its lines, except that the
/// text of two newlines stands for a single empty line (as does `"\n"`).
pub open spec fn replacement_lines(s: Seq<char>) -> Seq<Seq<char>> {
    if s == seq!['\n', '\n'] {
        seq![Seq::<char>::empty()]
    } else {
        str_lines(s)
    }
}

/// The characters of `s` are all newlines.
fn is_only_newlines(s: &str) -> (r: bool)
    ensures
        r == only_newlines(s@),
{
    let chars = s.chars();
    for c in it: chars
        invariant
            it.seq() == s@,
            forall|j: int| 0 <= j < it.index() ==> s@[j] == '\n',
    {
        if c != '\n' {
            return false;
        }
    }
    true
}

/// Splits a replacement text into the lines it stands for.
pub fn split_replacement(s: &str) -> (r: Vec<String>)
    ensures
        strs(r@) == replacement_lines(s@),
{
    if s.unicode_len() == 2 && is_only_newlines(s) {
        let mut lines: Vec<String> = Vec::new();
        lines.push(String::new());
        proof {
            assert(s@ =~= seq!['\n', '\n']);
            assert(strs(lines@) =~= seq![Seq::<char>::empty()]);
        }
        lines
    } else {
        proof {
            if s@ == seq!['\n', '\n'] {
                assert(s@.len() == 2);
                assert(only_newlines(s@));
            }
        }
        split_lines(s)
    }
}

/// A final line ending of a replacement is optional (unless the text ends in a
/// lone carriage return, which a final line ending would remove).
pub proof fn lemma_replacement_final_newline_optional(s: Seq<char>)
    requires
        s.len() > 0,
        s.last() != '\n',
        s.last() != '\r',
    ensures
        replacement_lines(s.push('\n')) == replacement_lines(s),
{
    lemma_final_newline_optional(s);
    assert(s.push('\n')[s.len() - 1] != '\n');
    assert(s.push('\n') != seq!['\n', '\n']) by {
        if s.push('\n') == seq!['\n', '\n'] {
            assert(s.push('\n')[s.len() - 1] == seq!['\n', '\n'][s.len() - 1]);
        }
    }
    assert(s != seq!['\n', '\n']) by {
        if s == seq!['\n', '\n'] {
            assert(s.last() == '\n');
        }
    }
}

} // verus!
