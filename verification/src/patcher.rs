//! Line-oriented patching of a text in a single forward pass.
use vstd::prelude::*;

use crate::error::ScriptError;
use crate::text::{
    join, join_lines, lemma_lines_render_round_trip, lemma_render_concat, push_line, push_lines,
    render, replacement_lines, split_lines, split_replacement, str_lines, strs,
};

verus! {

/// A staged replacement of the original lines `start..end`.
#[derive(Debug, Clone)]
pub struct Patch {
    pub start: usize,
    pub end: usize,
    pub replacement: Vec<String>,
}

/// What a patch means: its range of original lines and its new lines.
pub struct PatchView {
    pub start: int,
    pub end: int,
    pub replacement: Seq<Seq<char>>,
}

impl Patch {
    pub open spec fn view(&self) -> PatchView {
        PatchView {
            start: self.start as int,
            end: self.end as int,
            replacement: strs(self.replacement@),
        }
    }
}

pub open spec fn patch_views(ps: Seq<Patch>) -> Seq<PatchView> {
    ps.map_values(|p: Patch| p.view())
}

/// Records patches against the lines of an original text, guided by a
/// selection of lines and a cursor that move forwards through the text.
#[derive(Debug)]
pub struct TextPatcher {
    pub original_lines: Vec<String>,
    pub patches: Vec<Patch>,
    pub selection: (usize, usize),
    pub cursor: usize,
}

/// `pat` occurs in `lines` starting at line `p`.
pub open spec fn matches_at(lines: Seq<Seq<char>>, p: int, pat: Seq<Seq<char>>) -> bool {
    &&& 0 <= p
    &&& p + pat.len() <= lines.len()
    &&& lines.subrange(p, p + pat.len()) == pat
}

/// `before`, `select` and `after` occur one after the other from line `p` on.
pub open spec fn context_at(
    lines: Seq<Seq<char>>,
    p: int,
    before: Seq<Seq<char>>,
    select: Seq<Seq<char>>,
    after: Seq<Seq<char>>,
) -> bool {
    &&& matches_at(lines, p, before)
    &&& matches_at(lines, p + before.len(), select)
    &&& matches_at(lines, p + before.len() + select.len(), after)
}

/// Where the search for a context starts: the before-context may reach back
/// over the end of the current selection.
pub open spec fn search_start(selection_end: int, n_before: int) -> int {
    if selection_end >= n_before {
        selection_end - n_before
    } else {
        0
    }
}

/// A window of the whole context fits into the lines from `p` on.
pub open spec fn window_fits(n_lines: int, p: int, width: int) -> bool {
    p + width <= n_lines
}

/// `p` is the first line, from `start` on, at which the whole context occurs.
pub open spec fn first_context_at(
    lines: Seq<Seq<char>>,
    start: int,
    p: int,
    before: Seq<Seq<char>>,
    select: Seq<Seq<char>>,
    after: Seq<Seq<char>>,
) -> bool {
    &&& start <= p
    &&& context_at(lines, p, before, select, after)
    &&& forall|q: int| start <= q < p ==> !context_at(lines, q, before, select, after)
}

/// Some window from `start` on begins with the before-context.
pub open spec fn before_seen(
    lines: Seq<Seq<char>>,
    start: int,
    before: Seq<Seq<char>>,
    width: int,
) -> bool {
    exists|q: int|
        start <= q && window_fits(lines.len() as int, q, width) && #[trigger] matches_at(
            lines,
            q,
            before,
        )
}

/// Some window from `start` on begins with the before-context followed by the selection.
pub open spec fn select_seen(
    lines: Seq<Seq<char>>,
    start: int,
    before: Seq<Seq<char>>,
    select: Seq<Seq<char>>,
    width: int,
) -> bool {
    exists|q: int|
        start <= q && window_fits(lines.len() as int, q, width) && #[trigger] matches_at(
            lines,
            q,
            before,
        ) && matches_at(lines, q + before.len(), select)
}

/// How applying the patches fails.
pub enum PatchFailure {
    /// The first patch left after the last line does not start at the end of the text.
    LastPatchNotAtEnd,
    /// More than one patch is left after the last line.
    PatchesLeft,
}

/// The message that `apply` gives for a failure.
pub open spec fn failure_message(f: PatchFailure) -> Seq<char> {
    match f {
        PatchFailure::LastPatchNotAtEnd => "Last patch does not start at the end of the original content"@,
        PatchFailure::PatchesLeft => "There are unprocessed patches left"@,
    }
}

/// The state of `apply` after the first `k` original lines: the output lines,
/// how many original lines are still to be skipped, and the next patch.
/// Before line `k` is taken, the next patch is applied if it starts there;
/// the line is then skipped, or copied.
pub open spec fn apply_scan(lines: Seq<Seq<char>>, ps: Seq<PatchView>, k: nat) -> (
    Seq<Seq<char>>,
    int,
    int,
)
    decreases k,
{
    if k == 0 {
        (Seq::empty(), 0, 0)
    } else {
        let prev = apply_scan(lines, ps, (k - 1) as nat);
        let line = k - 1;
        let hit = 0 <= prev.2 < ps.len() && ps[prev.2].start == line;
        let out = if hit {
            prev.0 + ps[prev.2].replacement
        } else {
            prev.0
        };
        let skip = if hit && ps[prev.2].end > ps[prev.2].start {
            ps[prev.2].end - ps[prev.2].start
        } else {
            prev.1
        };
        let next = if hit {
            prev.2 + 1
        } else {
            prev.2
        };
        if skip > 0 {
            (out, skip - 1, next)
        } else {
            (out.push(lines[line]), skip, next)
        }
    }
}

/// The lines that `apply` produces, or why it fails: after the last
/// original line, one patch that starts at the end of the text may still be
/// appended; any other patch left is a failure.
pub open spec fn apply_lines(lines: Seq<Seq<char>>, ps: Seq<PatchView>) -> Result<
    Seq<Seq<char>>,
    PatchFailure,
> {
    let st = apply_scan(lines, ps, lines.len());
    if st.2 < ps.len() {
        if ps[st.2].start == lines.len() {
            if st.2 + 1 < ps.len() {
                Err(PatchFailure::PatchesLeft)
            } else {
                Ok(st.0 + ps[st.2].replacement)
            }
        } else {
            Err(PatchFailure::LastPatchNotAtEnd)
        }
    } else {
        Ok(st.0)
    }
}

/// What moving to a context does: see `TextPatcher::move_to_context`.
pub open spec fn moved_to_context(
    pre: TextPatcher,
    post: TextPatcher,
    bv: Seq<Seq<char>>,
    sv: Seq<Seq<char>>,
    av: Seq<Seq<char>>,
    with_selection: bool,
    r: Result<(), ScriptError>,
) -> bool {
    let lines = pre.lines();
    let start = pre.context_start(bv.len() as int);
    let width = (bv.len() + sv.len() + av.len()) as int;
    &&& post.original_lines == pre.original_lines
    &&& post.patches == pre.patches
    &&& r is Err ==> post.selection == pre.selection && post.cursor == pre.cursor
    &&& bv.len() + sv.len() + av.len() == 0 ==> r is Ok && post.selection == pre.selection && post.cursor
        == pre.cursor
    &&& bv.len() + sv.len() + av.len() > 0 ==> (r is Ok <==> exists|p: int|
        start <= p && #[trigger] context_at(lines, p, bv, sv, av))
    &&& bv.len() + sv.len() + av.len() > 0 && r is Ok ==> ({
        let p = choose|p: int| first_context_at(lines, start, p, bv, sv, av);
        &&& first_context_at(lines, start, p, bv, sv, av)
        &&& post.cursor == p + bv.len() + sv.len()
        &&& post.selection == if with_selection {
            ((p + bv.len()) as usize, (p + bv.len() + sv.len()) as usize)
        } else {
            pre.selection
        }
    })
    &&& r matches Err(e) ==> e matches ScriptError::PatternNotFound {
        before_context,
        select_context,
        after_context,
        before_found,
        select_found,
    } && before_context@ == join(bv, seq!['\n']) && select_context@ == join(sv, seq!['\n'])
        && after_context@ == join(av, seq!['\n']) && before_found == before_seen(
        lines,
        start,
        bv,
        width,
    ) && select_found == select_seen(lines, start, bv, sv, width)
}

/// Tagged lines, each tag and line taken by its view.
pub open spec fn tagged_views(t: Seq<(String, String)>) -> Seq<(Seq<char>, Seq<char>)> {
    t.map_values(|e: (String, String)| (e.0@, e.1@))
}

/// The lines tagged `B`, `S` and `A`, each group in order; or the first tag that is none of these.
pub open spec fn sort_tagged(t: Seq<(Seq<char>, Seq<char>)>) -> Result<
    (Seq<Seq<char>>, Seq<Seq<char>>, Seq<Seq<char>>),
    Seq<char>,
>
    decreases t.len(),
{
    if t.len() == 0 {
        Ok((Seq::empty(), Seq::empty(), Seq::empty()))
    } else {
        match sort_tagged(t.drop_last()) {
            Err(code) => Err(code),
            Ok((b, s, a)) => {
                let (code, line) = t.last();
                if code == "B"@ {
                    Ok((b.push(line), s, a))
                } else if code == "S"@ {
                    Ok((b, s.push(line), a))
                } else if code == "A"@ {
                    Ok((b, s, a.push(line)))
                } else {
                    Err(code)
                }
            },
        }
    }
}

/// Once a tag is refused, the tags after it do not matter.
proof fn lemma_sort_tagged_err_stays(t: Seq<(Seq<char>, Seq<char>)>, m: nat)
    requires
        m <= t.len(),
        sort_tagged(t.take(m as int)) is Err,
    ensures
        sort_tagged(t.take(t.len() as int)) == sort_tagged(t.take(m as int)),
    decreases t.len() - m,
{
    if m < t.len() {
        assert(t.take(m + 1 as int).drop_last() =~= t.take(m as int));
        lemma_sort_tagged_err_stays(t, (m + 1) as nat);
    }
}

/// The error reported when reading tagged lines stops at an entry that cannot
/// be read: an unknown tag among the entries read before it is reported first.
pub fn tagged_lines_failure(read: &Vec<(String, String)>, failure: ScriptError) -> (r: ScriptError)
    ensures
        match sort_tagged(tagged_views(read@)) {
            Err(code) => r matches ScriptError::BadString(msg) && msg@
                == "Unknown key in lines table: "@ + code,
            Ok(_) => r == failure,
        },
{
    match sort_tagged_lines(read) {
        Err(e) => e,
        Ok(_) => failure,
    }
}

/// The new selection starts no earlier than the old one ended, and holds `s`.
pub open spec fn selection_forward(pre: TextPatcher, post: TextPatcher, s: Seq<Seq<char>>) -> bool {
    &&& pre.selection.1 <= post.selection.0
    &&& post.selection.0 <= post.selection.1
    &&& post.selection.1 <= post.original_lines@.len()
    &&& post.lines().subrange(post.selection.0 as int, post.selection.1 as int) == s
}

/// Sorts tagged lines into the lines before (`B`), selected (`S`) and after (`A`).
pub fn sort_tagged_lines(tagged: &Vec<(String, String)>) -> (r: Result<
    (Vec<String>, Vec<String>, Vec<String>),
    ScriptError,
>)
    ensures
        match sort_tagged(tagged_views(tagged@)) {
            Ok((b, s, a)) => r matches Ok((rb, rs, ra)) && strs(rb@) == b && strs(rs@) == s
                && strs(ra@) == a,
            Err(code) => r matches Err(ScriptError::BadString(msg)) && msg@
                == "Unknown key in lines table: "@ + code,
        },
{
    let tag_b = String::from_str("B");
    let tag_s = String::from_str("S");
    let tag_a = String::from_str("A");
    let mut before: Vec<String> = Vec::new();
    let mut select: Vec<String> = Vec::new();
    let mut after: Vec<String> = Vec::new();
    let n = tagged.len();
    proof {
        assert(tagged_views(tagged@.take(0)) =~= Seq::<(Seq<char>, Seq<char>)>::empty());
        assert(strs(before@) =~= Seq::<Seq<char>>::empty());
        assert(strs(select@) =~= Seq::<Seq<char>>::empty());
        assert(strs(after@) =~= Seq::<Seq<char>>::empty());
    }
    for i in 0..n
        invariant
            n == tagged@.len(),
            tag_b@ == "B"@,
            tag_s@ == "S"@,
            tag_a@ == "A"@,
            sort_tagged(tagged_views(tagged@.take(i as int))) == Ok::<
                (Seq<Seq<char>>, Seq<Seq<char>>, Seq<Seq<char>>),
                Seq<char>,
            >((strs(before@), strs(select@), strs(after@))),
    {
        let ghost prev = tagged_views(tagged@.take(i as int));
        let ghost (b0, s0, a0) = (before@, select@, after@);
        proof {
            assert(tagged_views(tagged@.take(i + 1)).drop_last() =~= prev);
            assert(tagged_views(tagged@.take(i + 1)).last() == (tagged@[i as int].0@, tagged@[
                i as int].1@));
        }
        let code = &tagged[i].0;
        let line = tagged[i].1.clone();
        if *code == tag_b {
            before.push(line);
            assert(strs(before@) =~= strs(b0).push(tagged@[i as int].1@));
        } else if *code == tag_s {
            select.push(line);
            assert(strs(select@) =~= strs(s0).push(tagged@[i as int].1@));
        } else if *code == tag_a {
            after.push(line);
            assert(strs(after@) =~= strs(a0).push(tagged@[i as int].1@));
        } else {
            let mut msg = String::from_str("Unknown key in lines table: ");
            msg.append(code.as_str());
            proof {
                assert(tagged_views(tagged@).take(i + 1) =~= tagged_views(tagged@.take(i + 1)));
                lemma_sort_tagged_err_stays(tagged_views(tagged@), (i + 1) as nat);
                assert(tagged_views(tagged@).take(tagged@.len() as int) =~= tagged_views(tagged@));
            }
            return Err(ScriptError::BadString(msg));
        }
    }
    assert(tagged@.take(n as int) =~= tagged@);
    Ok((before, select, after))
}

/// The lines of `lines` from `p` on start with `pat`.
fn lines_match(lines: &Vec<String>, p: usize, pat: &Vec<String>) -> (r: bool)
    requires
        p + pat.len() <= lines.len(),
    ensures
        r == matches_at(strs(lines@), p as int, strs(pat@)),
{
    let n = pat.len();
    for k in 0..n
        invariant
            n == pat.len(),
            p + n <= lines.len(),
            forall|t: int| 0 <= t < k ==> lines@[p + t]@ == #[trigger] pat@[t]@,
    {
        if lines[p + k] != pat[k] {
            assert(strs(lines@).subrange(p as int, p + n)[k as int] != strs(pat@)[k as int]);
            return false;
        }
    }
    assert(strs(lines@).subrange(p as int, p + n) =~= strs(pat@));
    true
}

fn pattern_not_found(
    before: &Vec<String>,
    select: &Vec<String>,
    after: &Vec<String>,
    before_found: bool,
    select_found: bool,
) -> (e: ScriptError)
    ensures
        e matches ScriptError::PatternNotFound {
            before_context,
            select_context,
            after_context,
            before_found: bf,
            select_found: sf,
        } && before_context@ == join(strs(before@), seq!['\n']) && select_context@ == join(
            strs(select@),
            seq!['\n'],
        ) && after_context@ == join(strs(after@), seq!['\n']) && bf == before_found && sf
            == select_found,
{
    let nl = "\n";
    proof {
        reveal_strlit("\n");
        assert(nl@ =~= seq!['\n']);
    }
    ScriptError::PatternNotFound {
        before_context: join_lines(before, nl),
        select_context: join_lines(select, nl),
        after_context: join_lines(after, nl),
        before_found,
        select_found,
    }
}

impl TextPatcher {
    /// The original lines, each taken by its view.
    pub open spec fn lines(&self) -> Seq<Seq<char>> {
        strs(self.original_lines@)
    }

    /// Where a search for a context with `n_before` lines before the selection starts.
    pub open spec fn context_start(&self, n_before: int) -> int {
        search_start(self.selection.1 as int, n_before)
    }

    /// A patcher for `content`, with an empty selection and the cursor at its top.
    pub fn new(content: &str) -> (r: Self)
        ensures
            r.lines() == str_lines(content@),
            r.patches@.len() == 0,
            r.selection == (0usize, 0usize),
            r.cursor == 0,
    {
        TextPatcher {
            original_lines: split_lines(content),
            patches: Vec::new(),
            selection: (0, 0),
            cursor: 0,
        }
    }

    /// Clears the selection: it becomes empty at its own end.
    pub fn move_empty(&mut self) -> (r: Result<(), ScriptError>)
        ensures
            r is Ok,
            final(self).selection == (old(self).selection.1, old(self).selection.1),
            final(self).original_lines == old(self).original_lines,
            final(self).patches == old(self).patches,
            final(self).cursor == old(self).cursor,
    {
        self.selection = (self.selection.1, self.selection.1);
        Ok(())
    }

    /// Starts an empty selection at the cursor.
    pub fn start_selection_empty(&mut self) -> (r: Result<(), ScriptError>)
        ensures
            r is Ok,
            final(self).selection == (old(self).cursor, old(self).cursor),
            final(self).original_lines == old(self).original_lines,
            final(self).patches == old(self).patches,
            final(self).cursor == old(self).cursor,
    {
        self.selection = (self.cursor, self.cursor);
        Ok(())
    }

    /// Ends the selection at the cursor.
    pub fn end_selection(&mut self) -> (r: Result<(), ScriptError>)
        ensures
            r is Ok,
            final(self).selection == (old(self).selection.0, old(self).cursor),
            final(self).original_lines == old(self).original_lines,
            final(self).patches == old(self).patches,
            final(self).cursor == old(self).cursor,
    {
        self.selection = (self.selection.0, self.cursor);
        Ok(())
    }

    /// An empty selection, and the cursor, at the end of the text.
    pub fn select_end(&mut self) -> (r: Result<(), ScriptError>)
        ensures
            r is Ok,
            final(self).selection == (old(self).original_lines.len(), old(
                self,
            ).original_lines.len()),
            final(self).cursor == old(self).original_lines.len(),
            final(self).original_lines == old(self).original_lines,
            final(self).patches == old(self).patches,
    {
        let n_lines = self.original_lines.len();
        self.selection = (n_lines, n_lines);
        self.cursor = n_lines;
        Ok(())
    }

    /// Stages a patch that replaces the selected lines with the lines of `replacement`.
    pub fn replace_selected(&mut self, replacement: &str) -> (r: Result<(), ScriptError>)
        ensures
            r is Ok,
            final(self).patches@.len() == old(self).patches@.len() + 1,
            final(self).patches@.drop_last() == old(self).patches@,
            final(self).patches@.last().start == old(self).selection.0,
            final(self).patches@.last().end == old(self).selection.1,
            strs(final(self).patches@.last().replacement@) == replacement_lines(replacement@),
            final(self).original_lines == old(self).original_lines,
            final(self).selection == old(self).selection,
            final(self).cursor == old(self).cursor,
    {
        let patch = Patch {
            start: self.selection.0,
            end: self.selection.1,
            replacement: split_replacement(replacement),
        };
        self.patches.push(patch);
        proof {
            assert(self.patches@.drop_last() =~= old(self).patches@);
        }
        Ok(())
    }

    /// Stages a patch that deletes the selected lines.
    pub fn delete_selected(&mut self) -> (r: Result<(), ScriptError>)
        ensures
            r is Ok,
            final(self).patches@.len() == old(self).patches@.len() + 1,
            final(self).patches@.drop_last() == old(self).patches@,
            final(self).patches@.last().start == old(self).selection.0,
            final(self).patches@.last().end == old(self).selection.1,
            final(self).patches@.last().replacement@.len() == 0,
            final(self).original_lines == old(self).original_lines,
            final(self).selection == old(self).selection,
            final(self).cursor == old(self).cursor,
    {
        let r = self.replace_selected("");
        proof {
            reveal_strlit("");
            assert(""@ =~= Seq::<char>::empty());
            assert(str_lines(Seq::<char>::empty()) =~= Seq::<Seq<char>>::empty());
            assert(replacement_lines(Seq::<char>::empty()) =~= Seq::<Seq<char>>::empty());
            let last = self.patches@.last();
            assert(strs(last.replacement@).len() == last.replacement@.len());
        }
        r
    }

    /// The original text with the staged patches applied, line by line.
    pub fn apply(&self) -> (r: Result<String, ScriptError>)
        ensures
            match apply_lines(self.lines(), patch_views(self.patches@)) {
                Ok(out) => r matches Ok(text) && text@ == render(out),
                Err(f) => r matches Err(ScriptError::BadPatch(msg)) && msg@ == failure_message(f),
            },
    {
        let ghost lines = self.lines();
        let ghost ps = patch_views(self.patches@);
        let mut result = String::new();
        let mut skip: usize = 0;
        let mut next: usize = 0;
        let n = self.original_lines.len();
        let np = self.patches.len();
        for k in 0..n
            invariant
                n == self.original_lines@.len(),
                np == self.patches@.len(),
                lines == self.lines(),
                ps == patch_views(self.patches@),
                next <= np,
                result@ == render(apply_scan(lines, ps, k as nat).0),
                skip == apply_scan(lines, ps, k as nat).1,
                next == apply_scan(lines, ps, k as nat).2,
        {
            let ghost prev = apply_scan(lines, ps, k as nat);
            let ghost out = prev.0;
            if next < np && k == self.patches[next].start {
                let patch = &self.patches[next];
                push_lines(&mut result, &patch.replacement);
                proof {
                    lemma_render_concat(out, ps[next as int].replacement);
                }
                if patch.end > patch.start {
                    skip = patch.end - patch.start;
                }
                next = next + 1;
            }
            if skip > 0 {
                skip = skip - 1;
            } else {
                push_line(&mut result, self.original_lines[k].as_str());
                proof {
                    let cur = apply_scan(lines, ps, (k + 1) as nat).0;
                    assert(cur.drop_last() =~= apply_scan(lines, ps, k as nat).0 + (if prev.2 < ps.len() && ps[prev.2].start == k { ps[prev.2].replacement } else { Seq::empty() }));
                }
            }
        }
        if next < np {
            let last = &self.patches[next];
            if last.start == n {
                push_lines(&mut result, &last.replacement);
                proof {
                    lemma_render_concat(apply_scan(lines, ps, n as nat).0, ps[next as int].replacement);
                }
                next = next + 1;
            } else {
                return Err(ScriptError::BadPatch(
                    String::from_str("Last patch does not start at the end of the original content"),
                ));
            }
        }
        if next < np {
            return Err(ScriptError::BadPatch(String::from_str("There are unprocessed patches left")));
        }
        Ok(result)
    }

    /// Moves the selection onto the next lines tagged `S`, found between the
    /// lines tagged `B` before them and `A` after them.
    pub fn select_next_lines(&mut self, tagged: &Vec<(String, String)>) -> (r: Result<
        (),
        ScriptError,
    >)
        ensures
            match sort_tagged(tagged_views(tagged@)) {
                Err(code) => r matches Err(ScriptError::BadString(msg)) && msg@
                    == "Unknown key in lines table: "@ + code && *final(self) == *old(self),
                Ok((b, s, a)) => moved_to_context(*old(self), *final(self), b, s, a, true, r),
            },
            // A selection found by context comes after the previous one and holds the `S` lines.
            r is Ok ==> match sort_tagged(tagged_views(tagged@)) {
                Ok((b, s, a)) => b.len() + s.len() + a.len() > 0 ==> selection_forward(
                    *old(self),
                    *final(self),
                    s,
                ),
                Err(_) => false,
            },
    {
        let (before, select, after) = match sort_tagged_lines(tagged) {
            Ok(groups) => groups,
            Err(e) => {
                return Err(e);
            },
        };
        let r = self.move_to_context(&before, &select, &after, true);
        proof {
            let bv = strs(before@);
            let sv = strs(select@);
            let av = strs(after@);
            if r is Ok && bv.len() + sv.len() + av.len() > 0 {
                let lines = old(self).lines();
                let start = old(self).context_start(bv.len() as int);
                let p = choose|p: int| first_context_at(lines, start, p, bv, sv, av);
                assert(first_context_at(lines, start, p, bv, sv, av));
                assert(matches_at(lines, p + bv.len(), sv));
            }
        }
        r
    }

    /// Moves the cursor to the first place where the lines of `before` are
    /// followed by those of `after`; the selection stays.
    pub fn move_forward_to_context(&mut self, before: &str, after: &str) -> (r: Result<
        (),
        ScriptError,
    >)
        ensures
            moved_to_context(
                *old(self),
                *final(self),
                str_lines(before@),
                Seq::empty(),
                str_lines(after@),
                false,
                r,
            ),
    {
        let before_lines = split_lines(before);
        let after_lines = split_lines(after);
        let none: Vec<String> = Vec::new();
        proof {
            assert(strs(none@) =~= Seq::<Seq<char>>::empty());
        }
        self.move_to_context(&before_lines, &none, &after_lines, false)
    }

    /// Moves the cursor (and, `with_selection`, the selection) to the first
    /// place, from the end of the current selection less the length of the
    /// before-context on, where `before`, `select` and `after` occur one after
    /// the other. The cursor goes to the end of the `select` lines, the
    /// selection onto them. A failed search changes nothing.
    pub fn move_to_context(
        &mut self,
        before: &Vec<String>,
        select: &Vec<String>,
        after: &Vec<String>,
        with_selection: bool,
    ) -> (r: Result<(), ScriptError>)
        ensures
            moved_to_context(
                *old(self),
                *final(self),
                strs(before@),
                strs(select@),
                strs(after@),
                with_selection,
                r,
            ),
    {
        let ghost lines = self.lines();
        let ghost bv = strs(before@);
        let ghost sv = strs(select@);
        let ghost av = strs(after@);
        let b = before.len();
        let s = select.len();
        let a = after.len();
        let n = self.original_lines.len();
        if b == 0 && s == 0 && a == 0 {
            return Ok(());
        }
        let start: usize = if self.selection.1 >= b {
            self.selection.1 - b
        } else {
            0
        };
        let ghost gstart = start as int;
        let ghost width = b + s + a;
        // A window of the whole context no longer fits once it would end past the text.
        if n < b || n - b < s || n - b - s < a || n - b - s - a < start {
            proof {
                assert forall|p: int| start <= p implies !#[trigger] context_at(
                    lines,
                    p,
                    bv,
                    sv,
                    av,
                ) by {}
                assert(!before_seen(lines, gstart, bv, width));
                assert(!select_seen(lines, gstart, bv, sv, width));
            }
            return Err(pattern_not_found(before, select, after, false, false));
        }
        let last = n - b - s - a;
        let mut before_found = false;
        let mut select_found = false;
        let mut p = start;
        while p <= last
            invariant
                lines == strs(self.original_lines@),
                lines == old(self).lines(),
                self.original_lines == old(self).original_lines,
                self.patches == old(self).patches,
                self.selection == old(self).selection,
                self.cursor == old(self).cursor,
                start == old(self).context_start(b as int),
                n == self.original_lines@.len(),
                b == before@.len(),
                s == select@.len(),
                a == after@.len(),
                bv == strs(before@),
                sv == strs(select@),
                av == strs(after@),
                gstart == start,
                width == b + s + a,
                last + b + s + a == n,
                b + s + a > 0,
                start <= p <= last + 1,
                forall|q: int| start <= q < p ==> !#[trigger] context_at(lines, q, bv, sv, av),
                before_found == exists|q: int|
                    start <= q < p && #[trigger] matches_at(lines, q, bv),
                select_found == exists|q: int|
                    start <= q < p && #[trigger] matches_at(lines, q, bv) && matches_at(
                        lines,
                        q + b,
                        sv,
                    ),
            decreases last + 1 - p,
        {
            if lines_match(&self.original_lines, p, before) {
                before_found = true;
                if lines_match(&self.original_lines, p + b, select) {
                    select_found = true;
                    if lines_match(&self.original_lines, p + b + s, after) {
                        let ghost old_selection = self.selection;
                        self.cursor = p + b + s;
                        if with_selection {
                            self.selection = (p + b, p + b + s);
                        }
                        proof {
                            assert(first_context_at(lines, gstart, p as int, bv, sv, av));
                            let c = choose|c: int| first_context_at(lines, gstart, c, bv, sv, av);
                            assert(c == p);
                        }
                        return Ok(());
                    }
                }
            }
            p = p + 1;
        }
        proof {
            assert forall|q: int| start <= q implies !#[trigger] context_at(lines, q, bv, sv, av) by {}
            assert(before_seen(lines, gstart, bv, width) == before_found) by {
                if before_found {
                    let q = choose|q: int| start <= q < p && #[trigger] matches_at(lines, q, bv);
                    assert(window_fits(lines.len() as int, q, width));
                }
            }
            assert(select_seen(lines, gstart, bv, sv, width) == select_found) by {
                if select_found {
                    let q = choose|q: int|
                        start <= q < p && #[trigger] matches_at(lines, q, bv) && matches_at(
                            lines,
                            q + b,
                            sv,
                        );
                    assert(window_fits(lines.len() as int, q, width));
                }
            }
        }
        Err(pattern_not_found(before, select, after, before_found, select_found))
    }
}

} // verus!

verus! {

/// Where the original text resumes after the first `j` patches.
pub open spec fn resume_at(ps: Seq<PatchView>, j: int) -> int {
    if j == 0 {
        0
    } else {
        ps[j - 1].end
    }
}

/// The output up to and including the replacement of patch `j - 1`.
pub open spec fn emitted(lines: Seq<Seq<char>>, ps: Seq<PatchView>, j: nat) -> Seq<Seq<char>>
    decreases j,
{
    if j == 0 {
        Seq::empty()
    } else {
        emitted(lines, ps, (j - 1) as nat) + lines.subrange(resume_at(ps, j - 1), ps[j - 1].start)
            + ps[j - 1].replacement
    }
}

/// The original lines with the lines `start..end` of each patch replaced by its replacement.
pub open spec fn spliced(lines: Seq<Seq<char>>, ps: Seq<PatchView>) -> Seq<Seq<char>> {
    emitted(lines, ps, ps.len()) + lines.subrange(resume_at(ps, ps.len() as int), lines.len() as int)
}

/// Each patch lies within the text, and each starts after the previous one
/// starts and no earlier than it ends.
pub open spec fn patches_in_order(n_lines: int, ps: Seq<PatchView>) -> bool {
    &&& forall|i: int| 0 <= i < ps.len() ==> 0 <= #[trigger] ps[i].start <= ps[i].end <= n_lines
    &&& forall|i: int, j: int|
        0 <= i < j < ps.len() ==> #[trigger] ps[i].end <= #[trigger] ps[j].start && ps[i].start
            < ps[j].start
}

/// Patch `next`, if there is one, does not start within lines `k..m`.
pub open spec fn no_start_between(ps: Seq<PatchView>, next: int, k: int, m: int) -> bool {
    !(0 <= next < ps.len() && k <= ps[next].start < m)
}

/// Lines `k..m` are copied when nothing is being skipped and no patch starts among them.
proof fn lemma_scan_copies(lines: Seq<Seq<char>>, ps: Seq<PatchView>, k: nat, m: nat)
    requires
        k <= m <= lines.len(),
        apply_scan(lines, ps, k).1 == 0,
        no_start_between(ps, apply_scan(lines, ps, k).2, k as int, m as int),
    ensures
        apply_scan(lines, ps, m) == (
            apply_scan(lines, ps, k).0 + lines.subrange(k as int, m as int),
            0int,
            apply_scan(lines, ps, k).2,
        ),
    decreases m - k,
{
    let st = apply_scan(lines, ps, k);
    if m == k {
        assert(st.0 + lines.subrange(k as int, m as int) =~= st.0);
    } else {
        lemma_scan_copies(lines, ps, k, (m - 1) as nat);
        assert(st.0 + lines.subrange(k as int, m as int) =~= (st.0 + lines.subrange(
            k as int,
            m - 1,
        )).push(lines[m - 1]));
    }
}

/// Lines `k..k + skip` are skipped when they are to be skipped and no patch starts among them.
proof fn lemma_scan_skips(lines: Seq<Seq<char>>, ps: Seq<PatchView>, k: nat, m: nat)
    requires
        k <= m <= lines.len(),
        apply_scan(lines, ps, k).1 == m - k,
        no_start_between(ps, apply_scan(lines, ps, k).2, k as int, m as int),
    ensures
        apply_scan(lines, ps, m) == (apply_scan(lines, ps, k).0, 0int, apply_scan(lines, ps, k).2),
    decreases m - k,
{
    if m > k {
        lemma_scan_skips(lines, ps, (k + 1) as nat, m);
    }
}

/// From the start of patch `j` to line `m`: the patch's replacement is emitted,
/// its lines skipped, and the lines after it copied up to `m`.
proof fn lemma_scan_patch(lines: Seq<Seq<char>>, ps: Seq<PatchView>, j: int, m: nat)
    requires
        patches_in_order(lines.len() as int, ps),
        0 <= j < ps.len(),
        ps[j].start < lines.len(),
        apply_scan(lines, ps, ps[j].start as nat) == (
            emitted(lines, ps, j as nat) + lines.subrange(resume_at(ps, j), ps[j].start),
            0int,
            j,
        ),
        ps[j].end <= m <= lines.len(),
        ps[j].start < m,
        j + 1 < ps.len() ==> m <= ps[j + 1].start,
    ensures
        apply_scan(lines, ps, m) == (
            emitted(lines, ps, (j + 1) as nat) + lines.subrange(resume_at(ps, j + 1), m as int),
            0int,
            j + 1,
        ),
{
    let s = ps[j].start;
    let e = ps[j].end;
    let em = emitted(lines, ps, (j + 1) as nat);
    assert(em == emitted(lines, ps, j as nat) + lines.subrange(resume_at(ps, j), s)
        + ps[j].replacement);
    let st1 = apply_scan(lines, ps, (s + 1) as nat);
    assert(apply_scan(lines, ps, (s + 1) as nat).0 == (if e > s { em } else { em.push(lines[s]) }));
    if e > s {
        assert(st1 == (em, e - s - 1, j + 1));
        lemma_scan_skips(lines, ps, (s + 1) as nat, e as nat);
        lemma_scan_copies(lines, ps, e as nat, m);
    } else {
        assert(st1 == (em.push(lines[s]), 0int, j + 1));
        lemma_scan_copies(lines, ps, (s + 1) as nat, m);
        assert(em.push(lines[s]) + lines.subrange(s + 1, m as int) =~= em + lines.subrange(
            s,
            m as int,
        ));
    }
}

/// Before patch `j` starts (when it starts before the end of the text), the
/// output is that of the first `j` patches and the lines since.
proof fn lemma_scan_to_patch(lines: Seq<Seq<char>>, ps: Seq<PatchView>, j: int)
    requires
        patches_in_order(lines.len() as int, ps),
        0 <= j < ps.len(),
        ps[j].start < lines.len(),
    ensures
        apply_scan(lines, ps, ps[j].start as nat) == (
            emitted(lines, ps, j as nat) + lines.subrange(resume_at(ps, j), ps[j].start),
            0int,
            j,
        ),
    decreases j,
{
    if j == 0 {
        lemma_scan_copies(lines, ps, 0, ps[0].start as nat);
        assert(Seq::<Seq<char>>::empty() + lines.subrange(0, ps[0].start) =~= emitted(lines, ps, 0)
            + lines.subrange(resume_at(ps, 0), ps[0].start));
    } else {
        assert(ps[j - 1].start < ps[j].start);
        lemma_scan_to_patch(lines, ps, j - 1);
        lemma_scan_patch(lines, ps, j - 1, ps[j].start as nat);
    }
}

/// Patches that lie in order within the text are applied as splices: each
/// replaces its own range of original lines, and the other lines are kept.
pub proof fn lemma_apply_in_order(lines: Seq<Seq<char>>, ps: Seq<PatchView>)
    requires
        patches_in_order(lines.len() as int, ps),
    ensures
        apply_lines(lines, ps) == Ok::<Seq<Seq<char>>, PatchFailure>(spliced(lines, ps)),
{
    let n = lines.len();
    let np = ps.len();
    // The patches that start before the end of the text: all, or all but the last.
    let before_end: int = if np > 0 && ps[np - 1].start == n {
        np - 1
    } else {
        np as int
    };
    assert forall|i: int| 0 <= i < before_end implies ps[i].start < n by {
        if np > 0 && ps[np - 1].start == n && i < np - 1 {
            assert(ps[i].start < ps[np - 1].start);
        }
    }
    if before_end == 0 {
        lemma_scan_copies(lines, ps, 0, n as nat);
    } else {
        lemma_scan_to_patch(lines, ps, before_end - 1);
        lemma_scan_patch(lines, ps, before_end - 1, n as nat);
    }
    let st = apply_scan(lines, ps, n as nat);
    assert(st == (
        emitted(lines, ps, before_end as nat) + lines.subrange(resume_at(ps, before_end), n as int),
        0int,
        before_end,
    )) by {
        if before_end == 0 {
            assert(Seq::<Seq<char>>::empty() + lines.subrange(0, n as int) =~= emitted(lines, ps, 0)
                + lines.subrange(resume_at(ps, 0), n as int));
        }
    }
    if before_end < np {
        let last = before_end;
        assert(emitted(lines, ps, np as nat) == emitted(lines, ps, last as nat) + lines.subrange(
            resume_at(ps, last),
            ps[last].start,
        ) + ps[last].replacement);
        assert(spliced(lines, ps) =~= st.0 + ps[last].replacement);
    }
}

} // verus!

verus! {

/// With no patches staged, `apply` gives back the original lines.
pub proof fn lemma_apply_no_patches(lines: Seq<Seq<char>>)
    ensures
        apply_lines(lines, Seq::empty()) == Ok::<Seq<Seq<char>>, PatchFailure>(lines),
{
    lemma_apply_in_order(lines, Seq::empty());
    assert(spliced(lines, Seq::empty()) =~= lines);
}

/// A patcher on a text without carriage returns that is empty or ends in a
/// newline, applied without patches, gives back the text.
pub proof fn lemma_unpatched_text_round_trips(content: Seq<char>)
    requires
        forall|i: int| 0 <= i < content.len() ==> content[i] != '\r',
        content.len() == 0 || content.last() == '\n',
    ensures
        apply_lines(str_lines(content), Seq::empty()) matches Ok(out) && render(out) == content,
{
    lemma_apply_no_patches(str_lines(content));
    lemma_lines_render_round_trip(content);
}

} // verus!

verus! {

/// The selection lies before the cursor, and the cursor within the text.
pub open spec fn positions_ordered(t: TextPatcher) -> bool {
    &&& t.selection.0 <= t.selection.1
    &&& t.selection.1 <= t.cursor
    &&& t.cursor <= t.original_lines@.len()
}

/// Moving to a context, found or not, keeps the selection before the cursor
/// and the cursor within the text.
pub proof fn lemma_context_move_keeps_order(
    pre: TextPatcher,
    post: TextPatcher,
    bv: Seq<Seq<char>>,
    sv: Seq<Seq<char>>,
    av: Seq<Seq<char>>,
    with_selection: bool,
    r: Result<(), ScriptError>,
)
    requires
        moved_to_context(pre, post, bv, sv, av, with_selection, r),
        positions_ordered(pre),
    ensures
        positions_ordered(post),
{
    if r is Ok && bv.len() + sv.len() + av.len() > 0 {
        let lines = pre.lines();
        let start = pre.context_start(bv.len() as int);
        let p = choose|p: int| first_context_at(lines, start, p, bv, sv, av);
        assert(first_context_at(lines, start, p, bv, sv, av));
        assert(matches_at(lines, p + bv.len() + sv.len(), av));
    }
}

} // verus!

verus! {

/// Each patch starts within the text, and after the one before it starts.
pub open spec fn starts_in_order(n_lines: int, ps: Seq<PatchView>) -> bool {
    &&& forall|i: int| 0 <= i < ps.len() ==> 0 <= #[trigger] ps[i].start <= n_lines
    &&& forall|i: int, j: int|
        0 <= i < j < ps.len() ==> #[trigger] ps[i].start < #[trigger] ps[j].start
}

/// Whatever the patches, those taken so far started before the current line,
/// in increasing order.
proof fn lemma_scan_takes_in_order(lines: Seq<Seq<char>>, ps: Seq<PatchView>, k: nat)
    requires
        k <= lines.len(),
    ensures
        0 <= apply_scan(lines, ps, k).2 <= ps.len(),
        forall|i: int| 0 <= i < apply_scan(lines, ps, k).2 ==> 0 <= #[trigger] ps[i].start < k,
        forall|i: int, j: int|
            0 <= i < j < apply_scan(lines, ps, k).2 ==> #[trigger] ps[i].start
                < #[trigger] ps[j].start,
    decreases k,
{
    if k > 0 {
        lemma_scan_takes_in_order(lines, ps, (k - 1) as nat);
    }
}

/// With starts in order, the next patch is the first that starts at or after the current line.
proof fn lemma_scan_next_in_order(lines: Seq<Seq<char>>, ps: Seq<PatchView>, k: nat)
    requires
        k <= lines.len(),
        starts_in_order(lines.len() as int, ps),
    ensures
        0 <= apply_scan(lines, ps, k).2 <= ps.len(),
        apply_scan(lines, ps, k).2 < ps.len() ==> ps[apply_scan(lines, ps, k).2].start >= k,
        apply_scan(lines, ps, k).2 > 0 ==> ps[apply_scan(lines, ps, k).2 - 1].start < k,
    decreases k,
{
    if k > 0 {
        lemma_scan_next_in_order(lines, ps, (k - 1) as nat);
        let c = apply_scan(lines, ps, (k - 1) as nat).2;
        if c + 1 < ps.len() {
            assert(ps[c].start < ps[c + 1].start);
        }
    }
}

/// `apply` succeeds exactly when each patch starts within the text and after
/// the patch before it starts; otherwise it fails.
pub proof fn lemma_apply_succeeds_iff(lines: Seq<Seq<char>>, ps: Seq<PatchView>)
    ensures
        apply_lines(lines, ps) is Ok <==> starts_in_order(lines.len() as int, ps),
{
    let n = lines.len();
    let c = apply_scan(lines, ps, n as nat).2;
    lemma_scan_takes_in_order(lines, ps, n as nat);
    if starts_in_order(n as int, ps) {
        lemma_scan_next_in_order(lines, ps, n as nat);
        if c < ps.len() {
            assert(ps[c].start == n);
            if c + 1 < ps.len() {
                assert(ps[c].start < ps[c + 1].start);
            }
        }
    }
    if apply_lines(lines, ps) is Ok {
        assert forall|i: int| 0 <= i < ps.len() implies 0 <= #[trigger] ps[i].start <= n by {
            if i < c {
            }
        }
        if c < ps.len() {
            assert(ps[c].start == n && c + 1 == ps.len());
            assert forall|i: int, j: int|
                0 <= i < j < ps.len() implies #[trigger] ps[i].start < #[trigger] ps[j].start by {
                if j == c {
                    assert(ps[i].start < n);
                }
            }
        }
    }
}

} // verus!

verus! {

/// The search for a context reaches back over the end of the current
/// selection by the length of the before-context: a context whose before-lines
/// end exactly where the current selection ends is found there, and the new
/// selection starts where the old one ended. When the selection ends before
/// the before-context could fit, a context at the top of the text is found.
pub proof fn lemma_context_reaches_back(
    pre: TextPatcher,
    post: TextPatcher,
    bv: Seq<Seq<char>>,
    sv: Seq<Seq<char>>,
    av: Seq<Seq<char>>,
    r: Result<(), ScriptError>,
)
    requires
        moved_to_context(pre, post, bv, sv, av, true, r),
        bv.len() + sv.len() + av.len() > 0,
    ensures
        pre.selection.1 >= bv.len() && context_at(
            pre.lines(),
            pre.selection.1 - bv.len(),
            bv,
            sv,
            av,
        ) ==> r is Ok && post.selection == (pre.selection.1, (pre.selection.1 + sv.len()) as usize)
            && post.cursor == pre.selection.1 + sv.len(),
        pre.selection.1 < bv.len() && context_at(pre.lines(), 0, bv, sv, av) ==> r is Ok
            && post.selection == (bv.len() as usize, (bv.len() + sv.len()) as usize) && post.cursor
            == bv.len() + sv.len(),
{
    let lines = pre.lines();
    let start = pre.context_start(bv.len() as int);
    if (pre.selection.1 >= bv.len() && context_at(lines, pre.selection.1 - bv.len(), bv, sv, av))
        || (pre.selection.1 < bv.len() && context_at(lines, 0, bv, sv, av)) {
        assert(context_at(lines, start, bv, sv, av));
        assert(first_context_at(lines, start, start, bv, sv, av));
        let p = choose|p: int| first_context_at(lines, start, p, bv, sv, av);
        assert(first_context_at(lines, start, p, bv, sv, av));
        assert(p == start) by {
            if p > start {
                assert(!context_at(lines, start, bv, sv, av));
            }
        }
    }
}

} // verus!
