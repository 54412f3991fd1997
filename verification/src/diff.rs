//! Line diff of two texts, by a longest common subsequence of their lines.
use vstd::prelude::*;
use crate::text::{split_lines, str_eq, string_of, text_lines, views};

verus! {

#[derive(Debug)]
pub struct DiffLine {
    pub line_type: String,
    pub content: String,
    pub old_line: Option<usize>,
    pub new_line: Option<usize>,
}

pub struct DiffLineView {
    pub line_type: Seq<char>,
    pub content: Seq<char>,
    pub old_line: Option<usize>,
    pub new_line: Option<usize>,
}

impl View for DiffLine {
    type V = DiffLineView;

    open spec fn view(&self) -> DiffLineView {
        DiffLineView {
            line_type: self.line_type@,
            content: self.content@,
            old_line: self.old_line,
            new_line: self.new_line,
        }
    }
}

#[derive(Debug)]
pub struct DiffResult {
    pub resource_name: String,
    pub resource_kind: String,
    pub namespace: String,
    pub lines: Vec<DiffLine>,
    pub additions: usize,
    pub deletions: usize,
    pub has_changes: bool,
}

pub open spec fn dviews(v: Seq<DiffLine>) -> Seq<DiffLineView> {
    v.map_values(|d: DiffLine| d@)
}

pub open spec fn max_nat(x: nat, y: nat) -> nat {
    if x >= y { x } else { y }
}

/// Length of a longest common subsequence of `a[..i]` and `b[..j]`.
pub open spec fn lcs_len(a: Seq<Seq<char>>, b: Seq<Seq<char>>, i: nat, j: nat) -> nat
    decreases i + j,
{
    if i == 0 || j == 0 {
        0
    } else if a[i - 1] == b[j - 1] {
        lcs_len(a, b, (i - 1) as nat, (j - 1) as nat) + 1
    } else {
        max_nat(lcs_len(a, b, (i - 1) as nat, j), lcs_len(a, b, i, (j - 1) as nat))
    }
}

pub open spec fn context_line(c: Seq<char>, i: nat, j: nat) -> DiffLineView {
    DiffLineView { line_type: "context"@, content: c, old_line: Some(i as usize), new_line: Some(j as usize) }
}

pub open spec fn add_line(c: Seq<char>, j: nat) -> DiffLineView {
    DiffLineView { line_type: "add"@, content: c, old_line: None, new_line: Some(j as usize) }
}

pub open spec fn remove_line(c: Seq<char>, i: nat) -> DiffLineView {
    DiffLineView { line_type: "remove"@, content: c, old_line: Some(i as usize), new_line: None }
}

/// The diff of `a[..i]` against `b[..j]`: walking back from the ends, a
/// common line is kept as context, otherwise a line of `b` is added when
/// that loses no common line, else a line of `a` is removed.
pub open spec fn diff_spec(a: Seq<Seq<char>>, b: Seq<Seq<char>>, i: nat, j: nat) -> Seq<DiffLineView>
    decreases i + j,
{
    if i > 0 && j > 0 && a[i - 1] == b[j - 1] {
        diff_spec(a, b, (i - 1) as nat, (j - 1) as nat).push(context_line(a[i - 1], i, j))
    } else if j > 0 && (i == 0 || lcs_len(a, b, i, (j - 1) as nat) >= lcs_len(a, b, (i - 1) as nat, j)) {
        diff_spec(a, b, i, (j - 1) as nat).push(add_line(b[j - 1], j))
    } else if i > 0 {
        diff_spec(a, b, (i - 1) as nat, j).push(remove_line(a[i - 1], i))
    } else {
        Seq::empty()
    }
}

/// The diff of the lines of `old_text` against those of `new_text`.
pub open spec fn text_diff(old_text: Seq<char>, new_text: Seq<char>) -> Seq<DiffLineView> {
    let a = text_lines(old_text);
    let b = text_lines(new_text);
    diff_spec(a, b, a.len(), b.len())
}

/// The contents of the lines of the old text that `d` shows: context and
/// removed lines, in order.
pub open spec fn old_side(d: Seq<DiffLineView>) -> Seq<Seq<char>>
    decreases d.len(),
{
    if d.len() == 0 {
        Seq::empty()
    } else if d.last().line_type == "add"@ {
        old_side(d.drop_last())
    } else {
        old_side(d.drop_last()).push(d.last().content)
    }
}

/// The contents of the lines of the new text that `d` shows: context and
/// added lines, in order.
pub open spec fn new_side(d: Seq<DiffLineView>) -> Seq<Seq<char>>
    decreases d.len(),
{
    if d.len() == 0 {
        Seq::empty()
    } else if d.last().line_type == "remove"@ {
        new_side(d.drop_last())
    } else {
        new_side(d.drop_last()).push(d.last().content)
    }
}

/// The number of lines of `d` of the type `t`.
pub open spec fn count_type(d: Seq<DiffLineView>, t: Seq<char>) -> nat
    decreases d.len(),
{
    if d.len() == 0 {
        0
    } else if d.last().line_type == t {
        count_type(d.drop_last(), t) + 1
    } else {
        count_type(d.drop_last(), t)
    }
}

pub proof fn lemma_lcs_bounds(a: Seq<Seq<char>>, b: Seq<Seq<char>>, i: nat, j: nat)
    ensures
        lcs_len(a, b, i, j) <= i,
        lcs_len(a, b, i, j) <= j,
    decreases i + j,
{
    if i > 0 && j > 0 {
        lemma_lcs_bounds(a, b, (i - 1) as nat, (j - 1) as nat);
        lemma_lcs_bounds(a, b, (i - 1) as nat, j);
        lemma_lcs_bounds(a, b, i, (j - 1) as nat);
    }
}

proof fn lemma_literals()
    ensures
        "add"@ != "remove"@,
        "add"@ != "context"@,
        "remove"@ != "context"@,
{
    reveal_strlit("add");
    reveal_strlit("remove");
    reveal_strlit("context");
    assert("add"@.len() == 3);
    assert("remove"@.len() == 6);
    assert("context"@.len() == 7);
}

/// Read in order, the context and removed lines of a diff are exactly the
/// old lines, and the context and added lines exactly the new lines.
pub proof fn lemma_diff_sides(a: Seq<Seq<char>>, b: Seq<Seq<char>>, i: nat, j: nat)
    requires
        i <= a.len(),
        j <= b.len(),
    ensures
        old_side(diff_spec(a, b, i, j)) == a.subrange(0, i as int),
        new_side(diff_spec(a, b, i, j)) == b.subrange(0, j as int),
    decreases i + j,
{
    lemma_literals();
    let d = diff_spec(a, b, i, j);
    if i > 0 && j > 0 && a[i - 1] == b[j - 1] {
        lemma_diff_sides(a, b, (i - 1) as nat, (j - 1) as nat);
        assert(d.drop_last() == diff_spec(a, b, (i - 1) as nat, (j - 1) as nat));
        assert(a.subrange(0, i as int) =~= a.subrange(0, i - 1).push(a[i - 1]));
        assert(b.subrange(0, j as int) =~= b.subrange(0, j - 1).push(b[j - 1]));
    } else if j > 0 && (i == 0 || lcs_len(a, b, i, (j - 1) as nat) >= lcs_len(a, b, (i - 1) as nat, j)) {
        lemma_diff_sides(a, b, i, (j - 1) as nat);
        assert(d.drop_last() == diff_spec(a, b, i, (j - 1) as nat));
        assert(b.subrange(0, j as int) =~= b.subrange(0, j - 1).push(b[j - 1]));
    } else if i > 0 {
        lemma_diff_sides(a, b, (i - 1) as nat, j);
        assert(d.drop_last() == diff_spec(a, b, (i - 1) as nat, j));
        assert(a.subrange(0, i as int) =~= a.subrange(0, i - 1).push(a[i - 1]));
    } else {
        assert(a.subrange(0, 0) =~= Seq::<Seq<char>>::empty());
        assert(b.subrange(0, 0) =~= Seq::<Seq<char>>::empty());
    }
}

/// The diff keeps a longest common subsequence: its context lines number
/// `lcs_len`, so it adds `j - lcs_len` lines and removes `i - lcs_len`.
pub proof fn lemma_diff_counts(a: Seq<Seq<char>>, b: Seq<Seq<char>>, i: nat, j: nat)
    ensures
        count_type(diff_spec(a, b, i, j), "context"@) == lcs_len(a, b, i, j),
        count_type(diff_spec(a, b, i, j), "add"@) + lcs_len(a, b, i, j) == j,
        count_type(diff_spec(a, b, i, j), "remove"@) + lcs_len(a, b, i, j) == i,
    decreases i + j,
{
    lemma_literals();
    let d = diff_spec(a, b, i, j);
    if i > 0 && j > 0 && a[i - 1] == b[j - 1] {
        lemma_diff_counts(a, b, (i - 1) as nat, (j - 1) as nat);
        assert(d.drop_last() == diff_spec(a, b, (i - 1) as nat, (j - 1) as nat));
    } else if j > 0 && (i == 0 || lcs_len(a, b, i, (j - 1) as nat) >= lcs_len(a, b, (i - 1) as nat, j)) {
        lemma_diff_counts(a, b, i, (j - 1) as nat);
        assert(d.drop_last() == diff_spec(a, b, i, (j - 1) as nat));
        if i > 0 {
            lemma_lcs_step_add(a, b, i, j);
        }
    } else if i > 0 {
        lemma_diff_counts(a, b, (i - 1) as nat, j);
        assert(d.drop_last() == diff_spec(a, b, (i - 1) as nat, j));
        if j > 0 {
            lemma_lcs_step_remove(a, b, i, j);
        }
    }
}

proof fn lemma_lcs_step_add(a: Seq<Seq<char>>, b: Seq<Seq<char>>, i: nat, j: nat)
    requires
        i > 0,
        j > 0,
        a[i - 1] != b[j - 1],
        lcs_len(a, b, i, (j - 1) as nat) >= lcs_len(a, b, (i - 1) as nat, j),
    ensures
        lcs_len(a, b, i, j) == lcs_len(a, b, i, (j - 1) as nat),
{
}

proof fn lemma_lcs_step_remove(a: Seq<Seq<char>>, b: Seq<Seq<char>>, i: nat, j: nat)
    requires
        i > 0,
        j > 0,
        a[i - 1] != b[j - 1],
        lcs_len(a, b, i, (j - 1) as nat) < lcs_len(a, b, (i - 1) as nat, j),
    ensures
        lcs_len(a, b, i, j) == lcs_len(a, b, (i - 1) as nat, j),
{
}

/// A diff of a text against itself shows every line as context.
pub proof fn lemma_diff_identical(a: Seq<Seq<char>>, i: nat)
    requires
        i <= a.len(),
    ensures
        count_type(diff_spec(a, a, i, i), "context"@) == i,
        count_type(diff_spec(a, a, i, i), "add"@) == 0,
        count_type(diff_spec(a, a, i, i), "remove"@) == 0,
        diff_spec(a, a, i, i).len() == i,
    decreases i,
{
    lemma_literals();
    if i > 0 {
        lemma_diff_identical(a, (i - 1) as nat);
        assert(diff_spec(a, a, i, i).drop_last() == diff_spec(a, a, (i - 1) as nat, (i - 1) as nat));
    }
}

/// The diff of the lines of `old_text` against the lines of `new_text`.
pub fn compute_diff(old_text: &str, new_text: &str) -> (r: Vec<DiffLine>)
    requires
        text_lines(old_text@).len() < usize::MAX,
        text_lines(new_text@).len() < usize::MAX,
    ensures
        dviews(r@) == text_diff(old_text@, new_text@),
{
    let old_lines = split_lines(old_text);
    let new_lines = split_lines(new_text);
    let ghost a = views(old_lines@);
    let ghost b = views(new_lines@);
    let m = old_lines.len();
    let n = new_lines.len();

    // lcs[i][j] == lcs_len(a, b, i, j)
    let mut lcs: Vec<Vec<usize>> = Vec::new();
    let mut row0: Vec<usize> = Vec::new();
    let mut j: usize = 0;
    while j <= n
        invariant
            j <= n + 1,
            n < usize::MAX,
            row0@.len() == j,
            forall|c: int| 0 <= c < j ==> #[trigger] row0@[c] == 0,
        decreases n + 1 - j,
    {
        row0.push(0);
        j = j + 1;
    }
    lcs.push(row0);
    let mut i: usize = 1;
    while i <= m
        invariant
            1 <= i <= m + 1,
            m < usize::MAX,
            n < usize::MAX,
            m == a.len(),
            n == b.len(),
            a == views(old_lines@),
            b == views(new_lines@),
            lcs@.len() == i,
            forall|r: int| 0 <= r < i ==> #[trigger] lcs@[r]@.len() == n + 1,
            forall|r: int, c: int| 0 <= r < i && 0 <= c <= n ==> #[trigger] lcs@[r]@[c] == lcs_len(a, b, r as nat, c as nat),
        decreases m + 1 - i,
    {
        let mut row: Vec<usize> = Vec::new();
        row.push(0);
        let mut j: usize = 1;
        while j <= n
            invariant
                1 <= i <= m,
                1 <= j <= n + 1,
                n < usize::MAX,
                m == a.len(),
                n == b.len(),
                a == views(old_lines@),
                b == views(new_lines@),
                lcs@.len() == i,
                forall|r: int| 0 <= r < i ==> #[trigger] lcs@[r]@.len() == n + 1,
                forall|r: int, c: int| 0 <= r < i && 0 <= c <= n ==> #[trigger] lcs@[r]@[c] == lcs_len(a, b, r as nat, c as nat),
                row@.len() == j,
                forall|c: int| 0 <= c < j ==> #[trigger] row@[c] == lcs_len(a, b, i as nat, c as nat),
            decreases n + 1 - j,
        {
            proof {
                lemma_lcs_bounds(a, b, (i - 1) as nat, (j - 1) as nat);
            }
            let prev = &lcs[i - 1];
            let v: usize;
            if str_eq(old_lines[i - 1].as_str(), new_lines[j - 1].as_str()) {
                v = prev[j - 1] + 1;
            } else {
                let up = prev[j];
                let left = row[j - 1];
                v = if up >= left { up } else { left };
            }
            row.push(v);
            j = j + 1;
        }
        lcs.push(row);
        i = i + 1;
    }

    // Walk back from (m, n), collecting the lines in reverse.
    let mut rev: Vec<DiffLine> = Vec::new();
    let mut i: usize = m;
    let mut j: usize = n;
    proof {
        lemma_literals();
        reveal_strlit("add");
        reveal_strlit("remove");
        reveal_strlit("context");
    }
    while i > 0 || j > 0
        invariant
            i <= m,
            j <= n,
            m == a.len(),
            n == b.len(),
            a == views(old_lines@),
            b == views(new_lines@),
            lcs@.len() == m + 1,
            forall|r: int| 0 <= r <= m ==> #[trigger] lcs@[r]@.len() == n + 1,
            forall|r: int, c: int| 0 <= r <= m && 0 <= c <= n ==> #[trigger] lcs@[r]@[c] == lcs_len(a, b, r as nat, c as nat),
            diff_spec(a, b, m as nat, n as nat) == diff_spec(a, b, i as nat, j as nat) + dviews(rev@).reverse(),
        decreases i + j,
    {
        let ghost before = dviews(rev@);
        let ghost d = diff_spec(a, b, i as nat, j as nat);
        if i > 0 && j > 0 && str_eq(old_lines[i - 1].as_str(), new_lines[j - 1].as_str()) {
            let content = string_of(old_lines[i - 1].as_str());
            rev.push(DiffLine {
                line_type: string_of("context"),
                content,
                old_line: Some(i),
                new_line: Some(j),
            });
            i = i - 1;
            j = j - 1;
        } else if j > 0 && (i == 0 || lcs[i][j - 1] >= lcs[i - 1][j]) {
            let content = string_of(new_lines[j - 1].as_str());
            rev.push(DiffLine {
                line_type: string_of("add"),
                content,
                old_line: None,
                new_line: Some(j),
            });
            j = j - 1;
        } else {
            let content = string_of(old_lines[i - 1].as_str());
            rev.push(DiffLine {
                line_type: string_of("remove"),
                content,
                old_line: Some(i),
                new_line: None,
            });
            i = i - 1;
        }
        proof {
            let after = dviews(rev@);
            assert(after =~= before.push(d.last()));
            assert(d == diff_spec(a, b, i as nat, j as nat).push(d.last()));
            assert(after.reverse() =~= seq![d.last()] + before.reverse());
            assert(d + before.reverse() =~= diff_spec(a, b, i as nat, j as nat) + after.reverse());
        }
    }
    proof {
        assert(diff_spec(a, b, 0, 0) =~= Seq::<DiffLineView>::empty());
        assert(diff_spec(a, b, m as nat, n as nat) =~= dviews(rev@).reverse());
    }

    // Put the lines in order.
    let ghost total = dviews(rev@).reverse();
    let mut out: Vec<DiffLine> = Vec::new();
    while rev.len() > 0
        invariant
            total == dviews(out@) + dviews(rev@).reverse(),
        decreases rev@.len(),
    {
        let ghost before_rev = dviews(rev@);
        let ghost before_out = dviews(out@);
        let x = rev.pop().unwrap();
        proof {
            assert(before_rev =~= dviews(rev@).push(x@));
            assert(before_rev.reverse() =~= seq![x@] + dviews(rev@).reverse());
        }
        out.push(x);
        proof {
            assert(dviews(out@) =~= before_out.push(x@));
            assert(total =~= dviews(out@) + dviews(rev@).reverse());
        }
    }
    proof {
        assert(dviews(rev@).reverse() =~= Seq::<DiffLineView>::empty());
        assert(total =~= dviews(out@));
    }
    out
}

proof fn lemma_sides_agree(d: Seq<DiffLineView>)
    requires
        count_type(d, "add"@) == 0,
        count_type(d, "remove"@) == 0,
    ensures
        old_side(d) == new_side(d),
    decreases d.len(),
{
    if d.len() > 0 {
        lemma_sides_agree(d.drop_last());
    }
}

/// A diff shows no added and no removed line exactly when the two texts
/// have the same lines.
pub proof fn law_unchanged_iff_same_lines(old_text: Seq<char>, new_text: Seq<char>)
    ensures
        (count_type(text_diff(old_text, new_text), "add"@) == 0
            && count_type(text_diff(old_text, new_text), "remove"@) == 0)
            <==> text_lines(old_text) == text_lines(new_text),
{
    let a = text_lines(old_text);
    let b = text_lines(new_text);
    let d = diff_spec(a, b, a.len(), b.len());
    lemma_diff_sides(a, b, a.len(), b.len());
    assert(a.subrange(0, a.len() as int) =~= a);
    assert(b.subrange(0, b.len() as int) =~= b);
    if count_type(d, "add"@) == 0 && count_type(d, "remove"@) == 0 {
        lemma_sides_agree(d);
    }
    if a == b {
        lemma_diff_identical(a, a.len());
    }
}

/// Read in order, the context and removed lines of the diff of two texts
/// are the old text's lines, and the context and added lines the new
/// text's; the context lines form a longest common subsequence.
pub proof fn law_diff_replays_both_texts(old_text: Seq<char>, new_text: Seq<char>)
    ensures
        old_side(text_diff(old_text, new_text)) == text_lines(old_text),
        new_side(text_diff(old_text, new_text)) == text_lines(new_text),
        count_type(text_diff(old_text, new_text), "context"@)
            == lcs_len(text_lines(old_text), text_lines(new_text), text_lines(old_text).len(), text_lines(new_text).len()),
{
    let a = text_lines(old_text);
    let b = text_lines(new_text);
    lemma_diff_sides(a, b, a.len(), b.len());
    lemma_diff_counts(a, b, a.len(), b.len());
    assert(a.subrange(0, a.len() as int) =~= a);
    assert(b.subrange(0, b.len() as int) =~= b);
}

/// Counts the lines of `lines` whose type is `t`.
fn count_lines_of_type(lines: &Vec<DiffLine>, t: &str) -> (r: usize)
    ensures
        r == count_type(dviews(lines@), t@),
{
    let mut k: usize = 0;
    let mut i: usize = 0;
    while i < lines.len()
        invariant
            i <= lines@.len(),
            k == count_type(dviews(lines@.subrange(0, i as int)), t@),
            k <= i,
        decreases lines@.len() - i,
    {
        let ghost sub = dviews(lines@.subrange(0, i + 1));
        assert(sub.drop_last() =~= dviews(lines@.subrange(0, i as int)));
        if str_eq(lines[i].line_type.as_str(), t) {
            k = k + 1;
        }
        i = i + 1;
    }
    assert(lines@.subrange(0, i as int) =~= lines@);
    k
}

/// The diff of `old_yaml` against `new_yaml`, labelled with the resource's
/// name, kind and namespace, with its counts of added and removed lines.
pub fn diff_yaml(old_yaml: String, new_yaml: String, resource_name: String, resource_kind: String, namespace: String) -> (r: Result<DiffResult, String>)
    requires
        text_lines(old_yaml@).len() < usize::MAX,
        text_lines(new_yaml@).len() < usize::MAX,
    ensures
        r matches Ok(res) && {
            let d = text_diff(old_yaml@, new_yaml@);
            &&& dviews(res.lines@) == d
            &&& res.resource_name@ == resource_name@
            &&& res.resource_kind@ == resource_kind@
            &&& res.namespace@ == namespace@
            &&& res.additions == count_type(d, "add"@)
            &&& res.deletions == count_type(d, "remove"@)
            &&& res.has_changes == (res.additions > 0 || res.deletions > 0)
        },
{
    let lines = compute_diff(old_yaml.as_str(), new_yaml.as_str());
    let additions = count_lines_of_type(&lines, "add");
    let deletions = count_lines_of_type(&lines, "remove");
    Ok(DiffResult {
        resource_name,
        resource_kind,
        namespace,
        lines,
        additions,
        deletions,
        has_changes: additions > 0 || deletions > 0,
    })
}

/// The label of a diff between the resources `name1` and `name2`.
pub fn pair_label(name1: &str, name2: &str) -> (r: String)
    ensures
        r@ == name1@ + " \u{2194} "@ + name2@,
{
    let mut s = string_of(name1);
    s.append(" \u{2194} ");
    s.append(name2);
    s
}

/// The diff of two resources' manifests, labelled `name1 ↔ name2`.
pub fn diff_named(yaml1: String, yaml2: String, kind: String, namespace: String, name1: &str, name2: &str) -> (r: Result<DiffResult, String>)
    requires
        text_lines(yaml1@).len() < usize::MAX,
        text_lines(yaml2@).len() < usize::MAX,
    ensures
        r matches Ok(res) && {
            let d = text_diff(yaml1@, yaml2@);
            &&& dviews(res.lines@) == d
            &&& res.resource_name@ == name1@ + " \u{2194} "@ + name2@
            &&& res.resource_kind@ == kind@
            &&& res.namespace@ == namespace@
            &&& res.additions == count_type(d, "add"@)
            &&& res.deletions == count_type(d, "remove"@)
            &&& res.has_changes == (res.additions > 0 || res.deletions > 0)
        },
{
    let label = pair_label(name1, name2);
    diff_yaml(yaml1, yaml2, label, kind, namespace)
}

} // verus!
