//! The registry: one `owner/repo` pair per line, blank lines and `//`
//! comments ignored, surrounding white space trimmed.
use vstd::prelude::*;

use crate::error::ToolError;
use crate::text::{
    all_space, chars_of, has_prefix, lemma_trim_padded, prefix_at, split_on, trim, trim_bounds,
};

verus! {

/// One tracked tool: the repository `owner/repo` on the hosting service.
#[derive(Debug, Clone, PartialEq, Eq)]
pub struct ToolId {
    pub owner: String,
    pub repo: String,
}

impl View for ToolId {
    type V = (Seq<char>, Seq<char>);

    open spec fn view(&self) -> (Seq<char>, Seq<char>) {
        (self.owner@, self.repo@)
    }
}

pub open spec fn tools_view(v: Seq<ToolId>) -> Seq<(Seq<char>, Seq<char>)> {
    v.map_values(|t: ToolId| t@)
}

/// A line that names no tool: blank, or a comment.
pub open spec fn is_ignored(line: Seq<char>) -> bool {
    trim(line).len() == 0 || has_prefix(trim(line), seq!['/', '/'])
}

pub open spec fn has_slash(t: Seq<char>) -> bool {
    exists|k: int| 0 <= k < t.len() && t[k] == '/'
}

/// Position of the first `/` in `t`.
pub open spec fn first_slash(t: Seq<char>) -> int {
    choose|k: int| 0 <= k < t.len() && t[k] == '/' && forall|j: int| 0 <= j < k ==> t[j] != '/'
}

/// A line that should name a tool and does not.
pub open spec fn is_malformed(line: Seq<char>) -> bool {
    !is_ignored(line) && !has_slash(trim(line))
}

/// The pair a line names, split at its first `/`.
pub open spec fn entry_of(line: Seq<char>) -> Option<(Seq<char>, Seq<char>)> {
    if is_ignored(line) || !has_slash(trim(line)) {
        None
    } else {
        let t = trim(line);
        let k = first_slash(t);
        Some((t.take(k), t.skip(k + 1)))
    }
}

/// The pairs that `lines` name, in order, or the first malformed line (trimmed).
pub open spec fn registry_of(lines: Seq<Seq<char>>) -> Result<
    Seq<(Seq<char>, Seq<char>)>,
    Seq<char>,
>
    decreases lines.len(),
{
    if lines.len() == 0 {
        Ok(Seq::empty())
    } else {
        match registry_of(lines.drop_last()) {
            Err(e) => Err(e),
            Ok(v) => {
                if is_malformed(lines.last()) {
                    Err(trim(lines.last()))
                } else {
                    match entry_of(lines.last()) {
                        Some(p) => Ok(v.push(p)),
                        None => Ok(v),
                    }
                }
            },
        }
    }
}

/// What a registry file holding `text` yields.
pub open spec fn registry_text(text: Seq<char>) -> Result<Seq<(Seq<char>, Seq<char>)>, Seq<char>> {
    registry_of(split_on(text, '\n'))
}

/// The result of parsing matches `spec`: the same pairs, or the same bad line.
pub open spec fn parsed_as(
    r: Result<Vec<ToolId>, ToolError>,
    spec: Result<Seq<(Seq<char>, Seq<char>)>, Seq<char>>,
) -> bool {
    match spec {
        Ok(p) => r is Ok && tools_view(r->Ok_0@) == p,
        Err(l) => r matches Err(ToolError::MalformedRegistryEntry(m)) && m@ == l,
    }
}

/// Reads the line `cs[from..to]` of `text`.
fn parse_line(text: &str, cs: &Vec<char>, from: usize, to: usize) -> (r: Result<
    Option<ToolId>,
    ToolError,
>)
    requires
        cs@ == text@,
        from <= to <= cs.len(),
    ensures
        ({
            let line = cs@.subrange(from as int, to as int);
            if is_malformed(line) {
                r matches Err(ToolError::MalformedRegistryEntry(m)) && m@ == trim(line)
            } else {
                r is Ok && match entry_of(line) {
                    Some(p) => r->Ok_0 is Some && r->Ok_0->0@ == p,
                    None => r->Ok_0 is None,
                }
            }
        }),
{
    let ghost line = cs@.subrange(from as int, to as int);
    let (a, b) = trim_bounds(cs, from, to);
    let ghost t = cs@.subrange(a as int, b as int);
    if a == b {
        return Ok(None);
    }
    let comment: Vec<char> = vec!['/', '/'];
    if prefix_at(cs, a, b, &comment) {
        return Ok(None);
    }
    let mut k: usize = a;
    while k < b && cs[k] != '/'
        invariant
            a <= k <= b <= cs.len(),
            t == cs@.subrange(a as int, b as int),
            forall|j: int| 0 <= j < k - a ==> t[j] != '/',
        decreases b - k,
    {
        k = k + 1;
    }
    if k == b {
        let bad = String::from_str(text.substring_char(a, b));
        return Err(ToolError::MalformedRegistryEntry(bad));
    }
    let ghost kk = (k - a) as int;
    assert(t[kk] == '/');
    assert(has_slash(t));
    let ghost f = first_slash(t);
    assert(f == kk) by {
        if f < kk {
            assert(t[f] != '/');
        }
        if kk < f {
            assert(t[kk] != '/');
        }
    }
    let owner = String::from_str(text.substring_char(a, k));
    let repo = String::from_str(text.substring_char(k + 1, b));
    assert(owner@ == t.take(kk));
    assert(repo@ == t.skip(kk + 1));
    Ok(Some(ToolId { owner, repo }))
}

/// Whether `out` and `failed` together stand for `spec`.
pub open spec fn progress(
    out: Seq<ToolId>,
    failed: Option<String>,
    spec: Result<Seq<(Seq<char>, Seq<char>)>, Seq<char>>,
) -> bool {
    match failed {
        None => spec == Ok::<Seq<(Seq<char>, Seq<char>)>, Seq<char>>(tools_view(out)),
        Some(m) => spec == Err::<Seq<(Seq<char>, Seq<char>)>, Seq<char>>(m@),
    }
}

/// Adds the line `cs[from..to]` to what has been read; after the first
/// malformed line nothing more is taken.
fn take_line(
    text: &str,
    cs: &Vec<char>,
    from: usize,
    to: usize,
    out: &mut Vec<ToolId>,
    failed: &mut Option<String>,
    Ghost(done): Ghost<Seq<Seq<char>>>,
)
    requires
        cs@ == text@,
        from <= to <= cs.len(),
        progress(old(out)@, *old(failed), registry_of(done)),
    ensures
        progress(
            final(out)@,
            *final(failed),
            registry_of(done.push(cs@.subrange(from as int, to as int))),
        ),
{
    let ghost line = cs@.subrange(from as int, to as int);
    assert(done.push(line).drop_last() == done);
    if failed.is_some() {
        return;
    }
    match parse_line(text, cs, from, to) {
        Err(ToolError::MalformedRegistryEntry(m)) => {
            *failed = Some(m);
        },
        Err(_) => {},
        Ok(Some(t)) => {
            out.push(t);
            assert(tools_view(out@) == tools_view(old(out)@).push(t@));
        },
        Ok(None) => {},
    }
}

/// Parses the text of a registry file into the tools it names, in order.
pub fn parse_registry(text: &str) -> (r: Result<Vec<ToolId>, ToolError>)
    ensures
        parsed_as(r, registry_text(text@)),
{
    let cs = chars_of(text);
    let mut out: Vec<ToolId> = Vec::new();
    let mut failed: Option<String> = None;
    let mut start: usize = 0;
    let mut i: usize = 0;
    let ghost mut done: Seq<Seq<char>> = Seq::empty();
    assert(cs@.take(0) == Seq::<char>::empty());
    assert(tools_view(out@) == Seq::<(Seq<char>, Seq<char>)>::empty());
    while i < cs.len()
        invariant
            cs@ == text@,
            start <= i <= cs.len(),
            split_on(cs@.take(i as int), '\n') == done.push(cs@.subrange(start as int, i as int)),
            progress(out@, failed, registry_of(done)),
        decreases cs.len() - i,
    {
        assert(cs@.take(i + 1).drop_last() == cs@.take(i as int));
        if cs[i] == '\n' {
            take_line(text, &cs, start, i, &mut out, &mut failed, Ghost(done));
            proof {
                done = done.push(cs@.subrange(start as int, i as int));
            }
            start = i + 1;
            assert(cs@.subrange(start as int, i + 1) == Seq::<char>::empty());
        } else {
            assert(cs@.subrange(start as int, i + 1) == cs@.subrange(start as int, i as int).push(
                cs@[i as int],
            ));
        }
        i = i + 1;
    }
    assert(cs@.take(i as int) == text@);
    take_line(text, &cs, start, i, &mut out, &mut failed, Ghost(done));
    match failed {
        Some(m) => Err(ToolError::MalformedRegistryEntry(m)),
        None => Ok(out),
    }
}

proof fn lemma_registry_of_valid(lines: Seq<Seq<char>>)
    requires
        forall|i: int| 0 <= i < lines.len() ==> !is_malformed(#[trigger] lines[i]),
    ensures
        registry_of(lines) == Ok::<Seq<(Seq<char>, Seq<char>)>, Seq<char>>(
            lines.filter_map(|l: Seq<char>| entry_of(l)),
        ),
    decreases lines.len(),
{
    if lines.len() > 0 {
        let rest = lines.drop_last();
        assert forall|i: int| 0 <= i < rest.len() implies !is_malformed(#[trigger] rest[i]) by {
            assert(rest[i] == lines[i]);
        }
        lemma_registry_of_valid(rest);
        assert(!is_malformed(lines[lines.len() - 1]));
        let f = |l: Seq<char>| entry_of(l);
        let prev = rest.filter_map(f);
        match entry_of(lines.last()) {
            Some(p) => {
                assert(lines.filter_map(f) == prev + seq![p]);
                assert(prev + seq![p] == prev.push(p));
            },
            None => {
                assert(lines.filter_map(f) == prev);
            },
        }
    } else {
        assert(lines.filter_map(|l: Seq<char>| entry_of(l)) == Seq::<(Seq<char>, Seq<char>)>::empty());
    }
}

/// A registry whose every line is blank, a comment or an `owner/repo` pair
/// yields exactly the pairs of its non-blank, non-comment lines, in file
/// order, each read from the line with its surrounding white space trimmed
/// and split at its first `/`.
pub proof fn registry_lists_named_lines(text: Seq<char>)
    requires
        forall|i: int|
            0 <= i < split_on(text, '\n').len() ==> !is_malformed(#[trigger] split_on(text, '\n')[i]),
    ensures
        registry_text(text) == Ok::<Seq<(Seq<char>, Seq<char>)>, Seq<char>>(
            split_on(text, '\n').filter_map(|l: Seq<char>| entry_of(l)),
        ),
{
    lemma_registry_of_valid(split_on(text, '\n'));
}

proof fn lemma_first_slash_exists(t: Seq<char>)
    requires
        has_slash(t),
    ensures
        exists|k: int|
            0 <= k < t.len() && t[k] == '/' && forall|j: int| 0 <= j < k ==> t[j] != '/',
    decreases t.len(),
{
    if t[0] == '/' {
        assert(0 < t.len() && t[0] == '/' && forall|j: int| 0 <= j < 0 ==> t[j] != '/');
    } else {
        let u = t.drop_first();
        let w = choose|k: int| 0 <= k < t.len() && t[k] == '/';
        assert(u[w - 1] == '/');
        lemma_first_slash_exists(u);
        let k = choose|k: int|
            0 <= k < u.len() && u[k] == '/' && forall|j: int| 0 <= j < k ==> u[j] != '/';
        assert forall|j: int| 0 <= j < k + 1 implies t[j] != '/' by {
            if j > 0 {
                assert(t[j] == u[j - 1]);
            }
        }
        assert(t[k + 1] == '/');
    }
}

/// The pair read from a line, joined again with `/`, is the trimmed line,
/// and its owner holds no `/`.
pub proof fn pair_rejoins_to_line(line: Seq<char>)
    requires
        entry_of(line) is Some,
    ensures
        !(entry_of(line)->0).0.contains('/'),
        (entry_of(line)->0).0 + seq!['/'] + (entry_of(line)->0).1 == trim(line),
{
    let t = trim(line);
    lemma_first_slash_exists(t);
    let k = first_slash(t);
    let o = t.take(k);
    assert(!o.contains('/')) by {
        assert forall|j: int| 0 <= j < o.len() implies o[j] != '/' by {
            assert(o[j] == t[j]);
        }
    }
    assert(o + seq!['/'] + t.skip(k + 1) =~= t);
}

proof fn lemma_registry_of_trimmed(l1: Seq<Seq<char>>, l2: Seq<Seq<char>>)
    requires
        l1.len() == l2.len(),
        forall|i: int| 0 <= i < l1.len() ==> trim(#[trigger] l1[i]) == trim(l2[i]),
    ensures
        registry_of(l1) == registry_of(l2),
    decreases l1.len(),
{
    if l1.len() > 0 {
        let (r1, r2) = (l1.drop_last(), l2.drop_last());
        assert forall|i: int| 0 <= i < r1.len() implies trim(#[trigger] r1[i]) == trim(r2[i]) by {
            assert(r1[i] == l1[i] && r2[i] == l2[i]);
        }
        lemma_registry_of_trimmed(r1, r2);
        assert(trim(l1.last()) == trim(l2.last()));
    }
}

/// Two registry files whose lines differ only in the white space around
/// them load alike.
pub proof fn registry_ignores_line_padding(t1: Seq<char>, t2: Seq<char>)
    requires
        split_on(t1, '\n').len() == split_on(t2, '\n').len(),
        forall|i: int|
            0 <= i < split_on(t1, '\n').len() ==> trim(#[trigger] split_on(t1, '\n')[i]) == trim(
                split_on(t2, '\n')[i],
            ),
    ensures
        registry_text(t1) == registry_text(t2),
{
    lemma_registry_of_trimmed(split_on(t1, '\n'), split_on(t2, '\n'));
}

/// The trimmed lines that name a tool.
pub open spec fn named_lines(lines: Seq<Seq<char>>) -> Seq<Seq<char>> {
    lines.filter(|l: Seq<char>| !is_ignored(l)).map_values(|l: Seq<char>| trim(l))
}

/// Each pair, joined with `/`, gives back its line, and its owner holds no `/`.
pub open spec fn pairs_rejoin(pairs: Seq<(Seq<char>, Seq<char>)>, t: Seq<Seq<char>>) -> bool {
    &&& pairs.len() == t.len()
    &&& forall|i: int|
        0 <= i < pairs.len() ==> !(#[trigger] pairs[i]).0.contains('/') && pairs[i].0 + seq!['/']
            + pairs[i].1 == t[i]
}

proof fn lemma_pairs_rejoin(lines: Seq<Seq<char>>)
    requires
        forall|i: int| 0 <= i < lines.len() ==> !is_malformed(#[trigger] lines[i]),
    ensures
        pairs_rejoin(lines.filter_map(|l: Seq<char>| entry_of(l)), named_lines(lines)),
    decreases lines.len(),
{
    reveal(Seq::filter);
    let f = |l: Seq<char>| entry_of(l);
    let keep = |l: Seq<char>| !is_ignored(l);
    if lines.len() == 0 {
        assert(lines.filter_map(f) == Seq::<(Seq<char>, Seq<char>)>::empty());
        assert(lines.filter(keep) == Seq::<Seq<char>>::empty());
        assert(named_lines(lines) == Seq::<Seq<char>>::empty());
    } else {
        let rest = lines.drop_last();
        assert forall|i: int| 0 <= i < rest.len() implies !is_malformed(#[trigger] rest[i]) by {
            assert(rest[i] == lines[i]);
        }
        lemma_pairs_rejoin(rest);
        let last = lines.last();
        assert(!is_malformed(last));
        let a = rest.filter_map(f);
        let b = named_lines(rest);
        if is_ignored(last) {
            assert(lines.filter_map(f) == a);
            assert(lines.filter(keep) == rest.filter(keep));
        } else {
            let p = entry_of(last)->0;
            assert(lines.filter_map(f) == a + seq![p]);
            assert(lines.filter(keep) == rest.filter(keep).push(last));
            assert(named_lines(lines) =~= b.push(trim(last)));
            pair_rejoins_to_line(last);
            let a2 = lines.filter_map(f);
            assert forall|i: int| 0 <= i < a2.len() implies !(#[trigger] a2[i]).0.contains('/')
                && a2[i].0 + seq!['/'] + a2[i].1 == named_lines(lines)[i] by {
                if i < a.len() {
                    assert(a2[i] == a[i]);
                    assert(named_lines(lines)[i] == b[i]);
                }
            }
        }
    }
}

/// On a registry with no malformed line, the tools come one for each
/// trimmed non-blank, non-comment line, in order: the owner holds no `/`,
/// and owner, `/` and repo joined give the line back.
pub proof fn registry_rejoins_named_lines(text: Seq<char>)
    requires
        forall|i: int|
            0 <= i < split_on(text, '\n').len() ==> !is_malformed(#[trigger] split_on(text, '\n')[i]),
    ensures
        registry_text(text) is Ok,
        pairs_rejoin(registry_text(text)->Ok_0, named_lines(split_on(text, '\n'))),
{
    registry_lists_named_lines(text);
    lemma_pairs_rejoin(split_on(text, '\n'));
}

/// White space around a line changes nothing: the padded line names the
/// same pair, and is ignored or malformed exactly when the line is.
pub proof fn padding_is_ignored(a: Seq<char>, line: Seq<char>, b: Seq<char>)
    requires
        all_space(a),
        all_space(b),
    ensures
        entry_of(a + line + b) == entry_of(line),
        is_ignored(a + line + b) == is_ignored(line),
        is_malformed(a + line + b) == is_malformed(line),
{
    lemma_trim_padded(a, line, b);
}

/// Loads the registry from the contents of its file, `None` when the file
/// does not exist; the contents are then never looked at.
pub fn load_registry(contents: Option<&str>) -> (r: Result<Vec<ToolId>, ToolError>)
    ensures
        contents is None ==> r == Err::<Vec<ToolId>, ToolError>(ToolError::RegistryNotFound),
        contents is Some ==> parsed_as(r, registry_text(contents->0@)),
{
    match contents {
        None => Err(ToolError::RegistryNotFound),
        Some(text) => parse_registry(text),
    }
}

} // verus!
