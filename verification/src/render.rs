use vstd::prelude::*;

use crate::order::{
    lemma_lex_le_antisymmetric, lemma_lex_le_total, lemma_lex_le_transitive, lex_le, lex_lt,
    str_lex_le,
};
use crate::project::{HostKind, Project};
use crate::scan::{is_repo, ProjectEntry};
use crate::text::{lemma_padded_len, pad_right, padded};

verus! {

/// The color a run of characters is printed in.
#[derive(Clone, Copy, PartialEq, Eq, Structural, Debug)]
pub enum TextColor {
    Red,
    Blue,
}

/// A run of characters printed in one color.
#[derive(Clone, Debug)]
pub struct Segment {
    pub color: TextColor,
    pub text: String,
}

/// One output line: its segments in print order.
#[derive(Clone, Debug)]
pub struct Line {
    pub segments: Vec<Segment>,
}

/// The characters of a run of segments, in print order.
pub open spec fn segments_text(s: Seq<Segment>) -> Seq<char>
    decreases s.len(),
{
    if s.len() == 0 {
        Seq::empty()
    } else {
        s[0].text@ + segments_text(s.drop_first())
    }
}

/// The characters of one rendered line.
pub open spec fn line_text(l: Line) -> Seq<char> {
    segments_text(l.segments@)
}

/// The icon that marks an entry's kind: one glyph for repositories and
/// another for plain directories.
pub open spec fn type_icon(p: Project) -> Seq<char> {
    if p.repo is Some {
        "\u{f02a2} "@
    } else {
        "\u{f024b} "@
    }
}

/// The color of an entry's icon and name: red for repositories, blue for
/// plain directories.
pub open spec fn type_color(p: Project) -> TextColor {
    if p.repo is Some {
        TextColor::Red
    } else {
        TextColor::Blue
    }
}

/// The icon before a remote URL: one glyph for the well-known hosting
/// service, another for any other host.
pub open spec fn remote_icon(k: HostKind) -> Seq<char> {
    if k is Primary {
        "\u{f02a4} "@
    } else {
        "\u{f02a2} "@
    }
}

/// The entry's line carries a remote annotation.
pub open spec fn has_annotation(e: ProjectEntry, show_remote: bool) -> bool {
    show_remote && e.project.repo is Some && e.project.repo.unwrap().remote is Some
}

/// The remote annotation: icon and URL when remotes are shown and the
/// entry is a repository with one; empty otherwise.
pub open spec fn annotation_text(e: ProjectEntry, show_remote: bool) -> Seq<char> {
    if has_annotation(e, show_remote) {
        let info = e.project.repo.unwrap().remote.unwrap();
        remote_icon(info.host_kind) + info.url@
    } else {
        Seq::empty()
    }
}

/// The full text of the line for one entry, its name left-justified in a
/// field of `width` characters.
pub open spec fn entry_line_text(e: ProjectEntry, width: nat, show_remote: bool) -> Seq<char> {
    type_icon(e.project) + padded(e.name@, width) + annotation_text(e, show_remote)
}

/// The line rendered for `e`: its text is `entry_line_text`, split into the
/// icon and padded name in the entry's type color, then, when there is
/// one, the annotation in blue.
pub open spec fn line_for(l: Line, e: ProjectEntry, width: nat, show_remote: bool) -> bool {
    &&& line_text(l) == entry_line_text(e, width, show_remote)
    &&& l.segments@.len() >= 1
    &&& l.segments@[0].color == type_color(e.project)
    &&& l.segments@[0].text@ == type_icon(e.project) + padded(e.name@, width)
    &&& if has_annotation(e, show_remote) {
        &&& l.segments@.len() == 2
        &&& l.segments@[1].color == TextColor::Blue
        &&& l.segments@[1].text@ == annotation_text(e, show_remote)
    } else {
        l.segments@.len() == 1
    }
}

/// Renders the line for one entry.
pub fn render_line(e: &ProjectEntry, width: usize, show_remote: bool) -> (l: Line)
    ensures
        line_for(l, *e, width as nat, show_remote),
{
    let is_repo = e.project.repo.is_some();
    let icon: &str = if is_repo {
        "\u{f02a2} "
    } else {
        "\u{f024b} "
    };
    let padded_name = pad_right(e.name.as_str(), width);
    let mut head = String::from_str(icon);
    head.append(padded_name.as_str());
    let color = if is_repo {
        TextColor::Red
    } else {
        TextColor::Blue
    };
    let mut segments: Vec<Segment> = Vec::new();
    segments.push(Segment { color, text: head });
    if show_remote {
        if let Some(repo) = &e.project.repo {
            if let Some(info) = &repo.remote {
                let ricon: &str = match info.host_kind {
                    HostKind::Primary => "\u{f02a4} ",
                    HostKind::Other => "\u{f02a2} ",
                };
                let mut ann = String::from_str(ricon);
                ann.append(info.url.as_str());
                segments.push(Segment { color: TextColor::Blue, text: ann });
            }
        }
    }
    let l = Line { segments };
    proof {
        let segs = l.segments@;
        if has_annotation(*e, show_remote) {
            assert(segments_text(segs.drop_first().drop_first()) == Seq::<char>::empty());
            assert(segs.drop_first()[0] == segs[1]);
            assert(segments_text(segs.drop_first()) =~= segs[1].text@);
            assert(line_text(l) =~= segs[0].text@ + segs[1].text@);
            assert(line_text(l) =~= entry_line_text(*e, width as nat, show_remote));
        } else {
            assert(segments_text(segs.drop_first()) == Seq::<char>::empty());
            assert(line_text(l) =~= segs[0].text@);
            assert(annotation_text(*e, show_remote) == Seq::<char>::empty());
            assert(line_text(l) =~= entry_line_text(*e, width as nat, show_remote));
        }
    }
    l
}

/// Every name, with its two trailing blanks, fits the machine's word.
pub open spec fn names_fit(s: Seq<ProjectEntry>) -> bool {
    forall|i: int| 0 <= i < s.len() ==> (#[trigger] s[i]).name@.len() + 2 <= usize::MAX
}

/// The common width of the name field: two more than the longest name,
/// and zero when there are no entries.
pub open spec fn width_of(s: Seq<ProjectEntry>) -> nat
    decreases s.len(),
{
    if s.len() == 0 {
        0
    } else {
        let rest = width_of(s.drop_last());
        let last = s.last().name@.len() + 2;
        if last >= rest {
            last
        } else {
            rest
        }
    }
}

/// Law: the common width leaves room for every name and its two blanks.
pub proof fn lemma_width_of_bound(s: Seq<ProjectEntry>, i: int)
    requires
        0 <= i < s.len(),
    ensures
        s[i].name@.len() + 2 <= width_of(s),
    decreases s.len(),
{
    if i < s.len() - 1 {
        lemma_width_of_bound(s.drop_last(), i);
    }
}

/// Computes the common width of the name field.
pub fn name_width(entries: &Vec<ProjectEntry>) -> (w: usize)
    requires
        names_fit(entries@),
    ensures
        w == width_of(entries@),
{
    let mut w: usize = 0;
    let mut i: usize = 0;
    proof {
        assert(entries@.subrange(0, 0) =~= Seq::<ProjectEntry>::empty());
    }
    while i < entries.len()
        invariant
            i <= entries@.len(),
            names_fit(entries@),
            w == width_of(entries@.subrange(0, i as int)),
        decreases entries@.len() - i,
    {
        let len = entries[i].name.as_str().unicode_len();
        let cand = len + 2;
        if cand > w {
            w = cand;
        }
        proof {
            assert(entries@.subrange(0, i + 1).drop_last() =~= entries@.subrange(0, i as int));
            assert(entries@.subrange(0, i + 1).last() == entries@[i as int]);
        }
        i = i + 1;
    }
    proof {
        assert(entries@.subrange(0, entries@.len() as int) =~= entries@);
    }
    w
}

/// The listing is sorted by name, ascending.
pub open spec fn entries_sorted(s: Seq<ProjectEntry>) -> bool {
    forall|i: int, j: int|
        #![trigger s[i], s[j]]
        0 <= i < j < s.len() ==> lex_le(s[i].name@, s[j].name@)
}

/// Sorts the entries by name, ascending; the same entries come out that
/// went in.
pub fn sort_entries(v: &mut Vec<ProjectEntry>)
    ensures
        entries_sorted(final(v)@),
        final(v)@.to_multiset() == old(v)@.to_multiset(),
{
    let ghost orig = v@;
    if v.len() <= 1 {
        return ;
    }
    let mut i: usize = 1;
    while i < v.len()
        invariant
            1 <= i <= v@.len(),
            v@.len() == orig.len(),
            v@.to_multiset() == orig.to_multiset(),
            forall|a: int, b: int|
                #![trigger v@[a], v@[b]]
                0 <= a < b < i ==> lex_le(v@[a].name@, v@[b].name@),
        decreases v@.len() - i,
    {
        broadcast use vstd::seq_lib::group_to_multiset_ensures;

        let ghost before = v@;
        let x = v.remove(i);
        let ghost gx = x;
        let ghost pre = v@;
        let mut pos: usize = 0;
        while pos < i && str_lex_le(v[pos].name.as_str(), x.name.as_str())
            invariant
                pos <= i,
                i < before.len(),
                v@ == pre,
                pre.len() + 1 == before.len(),
                gx == x,
                forall|k: int| 0 <= k < pos ==> lex_le((#[trigger] pre[k]).name@, gx.name@),
            decreases i - pos,
        {
            pos = pos + 1;
        }
        proof {
            if pos < i {
                lemma_lex_le_total(pre[pos as int].name@, gx.name@);
                assert(lex_le(gx.name@, pre[pos as int].name@));
            }
        }
        v.insert(pos, x);
        proof {
            let cur = v@;
            assert(cur == pre.insert(pos as int, gx));
            // the removed element was put back: same contents as before
            assert(before.contains(before[i as int]));
            assert(cur.to_multiset() =~= before.to_multiset());
            // the first i+1 entries are now sorted
            assert forall|a: int, b: int|
                #![trigger cur[a], cur[b]]
                0 <= a < b < i + 1 implies lex_le(cur[a].name@, cur[b].name@) by {
                if a < pos && b < pos {
                    assert(cur[a] == pre[a] && cur[b] == pre[b]);
                } else if b == pos {
                    assert(cur[a] == pre[a] && cur[b] == gx);
                } else if a == pos {
                    assert(cur[a] == gx && cur[b] == pre[b - 1]);
                    if pos < b - 1 {
                        lemma_lex_le_transitive(
                            gx.name@,
                            pre[pos as int].name@,
                            pre[b - 1].name@,
                        );
                    }
                } else if a < pos {
                    assert(cur[a] == pre[a] && cur[b] == pre[b - 1]);
                } else {
                    assert(cur[a] == pre[a - 1] && cur[b] == pre[b - 1]);
                }
            }
        }
        i = i + 1;
    }
}

/// `s` is the listing `orig` sorted by name.
pub open spec fn sort_of(s: Seq<ProjectEntry>, orig: Seq<ProjectEntry>) -> bool {
    entries_sorted(s) && s.to_multiset() == orig.to_multiset()
}

/// The lines render the sorted listing `s`: one line per entry, in order,
/// each with its name in a field of the common width of `s`.
pub open spec fn lines_render(lines: Seq<Line>, s: Seq<ProjectEntry>, show_remote: bool) -> bool {
    &&& lines.len() == s.len()
    &&& forall|i: int|
        0 <= i < s.len() ==> line_for(#[trigger] lines[i], s[i], width_of(s), show_remote)
}

/// Law: whether the names fit the machine's word depends only on which
/// entries are listed, not on their order.
proof fn lemma_names_fit_permutation(a: Seq<ProjectEntry>, b: Seq<ProjectEntry>)
    requires
        a.to_multiset() == b.to_multiset(),
        names_fit(a),
    ensures
        names_fit(b),
{
    broadcast use vstd::seq_lib::group_to_multiset_ensures;

    assert forall|i: int| 0 <= i < b.len() implies (#[trigger] b[i]).name@.len() + 2
        <= usize::MAX by {
        assert(b.contains(b[i]));
        assert(a.to_multiset().count(b[i]) > 0);
        assert(a.contains(b[i]));
        let j = choose|j: int| 0 <= j < a.len() && a[j] == b[i];
        assert(a[j].name@.len() + 2 <= usize::MAX);
    }
}

/// Sorts the entries and renders one line for each: the output of one run,
/// in print order.
pub fn render(entries: Vec<ProjectEntry>, show_remote: bool) -> (lines: Vec<Line>)
    requires
        names_fit(entries@),
    ensures
        lines@.len() == entries@.len(),
        exists|s: Seq<ProjectEntry>|
            #[trigger] sort_of(s, entries@) && lines_render(lines@, s, show_remote),
{
    let ghost orig = entries@;
    let mut v = entries;
    sort_entries(&mut v);
    proof {
        lemma_names_fit_permutation(orig, v@);
        broadcast use vstd::seq_lib::group_to_multiset_ensures;

        assert(v@.len() == v@.to_multiset().len());
        assert(orig.len() == orig.to_multiset().len());
        assert(v@.len() == orig.len());
    }
    let width = name_width(&v);
    let ghost s = v@;
    let mut lines: Vec<Line> = Vec::new();
    let mut i: usize = 0;
    while i < v.len()
        invariant
            i <= v@.len(),
            v@ == s,
            width == width_of(s),
            lines@.len() == i,
            forall|k: int|
                0 <= k < i ==> line_for(#[trigger] lines@[k], s[k], width_of(s), show_remote),
        decreases v@.len() - i,
    {
        let l = render_line(&v[i], width, show_remote);
        lines.push(l);
        i = i + 1;
    }
    proof {
        assert(sort_of(s, orig));
        assert(lines_render(lines@, s, show_remote));
    }
    lines
}

/// Names are pairwise distinct, as the base names of distinct directories
/// are.
pub open spec fn distinct_names(s: Seq<ProjectEntry>) -> bool {
    forall|i: int, j: int|
        #![trigger s[i], s[j]]
        0 <= i < j < s.len() ==> s[i].name@ != s[j].name@
}

/// Law: in a sorted listing with distinct names an entry stands before
/// another exactly when its name is lexicographically smaller.
pub proof fn lemma_sorted_order(s: Seq<ProjectEntry>, i: int, j: int)
    requires
        entries_sorted(s),
        distinct_names(s),
        0 <= i < s.len(),
        0 <= j < s.len(),
        i != j,
    ensures
        (i < j) <==> lex_lt(s[i].name@, s[j].name@),
{
    if i < j {
        assert(lex_le(s[i].name@, s[j].name@));
        assert(s[i].name@ != s[j].name@);
    } else {
        assert(lex_le(s[j].name@, s[i].name@));
        if lex_lt(s[i].name@, s[j].name@) {
            lemma_lex_le_antisymmetric(s[i].name@, s[j].name@);
        }
    }
}

/// Law: sorting is unambiguous: two sorted listings of the same entries,
/// with no repeated name, are identical.
pub proof fn lemma_sorted_unique(a: Seq<ProjectEntry>, b: Seq<ProjectEntry>)
    requires
        entries_sorted(a),
        entries_sorted(b),
        a.to_multiset() == b.to_multiset(),
        distinct_names(a),
    ensures
        a == b,
    decreases a.len(),
{
    broadcast use vstd::seq_lib::group_to_multiset_ensures;

    assert(a.len() == a.to_multiset().len());
    assert(b.len() == b.to_multiset().len());
    if a.len() == 0 {
        assert(b.len() == 0);
        assert(a =~= b);
    } else {
        assert(a.len() == b.len());
        assert(a.contains(a[0]));
        assert(b.to_multiset().count(a[0]) > 0);
        assert(b.contains(a[0]));
        let jb = choose|k: int| 0 <= k < b.len() && b[k] == a[0];
        assert(b.contains(b[0]));
        assert(a.to_multiset().count(b[0]) > 0);
        assert(a.contains(b[0]));
        let ja = choose|k: int| 0 <= k < a.len() && a[k] == b[0];
        if ja == 0 {
            assert(a[0] == b[0]);
        } else if jb == 0 {
            assert(a[0] == b[0]);
        } else {
            assert(lex_le(a[0].name@, a[ja].name@));
            assert(lex_le(b[0].name@, b[jb].name@));
            lemma_lex_le_antisymmetric(a[0].name@, b[0].name@);
            assert(a[ja].name@ == a[0].name@);
            assert(false);
        }
        let at = a.drop_first();
        let bt = b.drop_first();
        assert(a.remove(0).to_multiset() == a.to_multiset().remove(a[0]));
        assert(b.remove(0).to_multiset() == b.to_multiset().remove(b[0]));
        assert(a.remove(0) =~= at);
        assert(b.remove(0) =~= bt);
        assert(at.to_multiset() == bt.to_multiset());
        assert forall|i: int, j: int|
            #![trigger at[i], at[j]]
            0 <= i < j < at.len() implies lex_le(at[i].name@, at[j].name@) && at[i].name@
            != at[j].name@ by {
            assert(at[i] == a[i + 1] && at[j] == a[j + 1]);
        }
        assert forall|i: int, j: int|
            #![trigger bt[i], bt[j]]
            0 <= i < j < bt.len() implies lex_le(bt[i].name@, bt[j].name@) by {
            assert(bt[i] == b[i + 1] && bt[j] == b[j + 1]);
        }
        lemma_sorted_unique(at, bt);
        assert forall|i: int| 0 <= i < a.len() implies a[i] == b[i] by {
            if i > 0 {
                assert(a[i] == at[i - 1] && b[i] == bt[i - 1]);
            }
        }
        assert(a =~= b);
    }
}

/// Law: one scanned listing has one rendering: two runs over the same
/// entries, with distinct names, show the same text line for line.
pub proof fn lemma_render_deterministic(
    l1: Seq<Line>,
    s1: Seq<ProjectEntry>,
    l2: Seq<Line>,
    s2: Seq<ProjectEntry>,
    orig: Seq<ProjectEntry>,
    show_remote: bool,
)
    requires
        sort_of(s1, orig),
        lines_render(l1, s1, show_remote),
        sort_of(s2, orig),
        lines_render(l2, s2, show_remote),
        distinct_names(s1),
    ensures
        l1.len() == l2.len(),
        forall|i: int| 0 <= i < l1.len() ==> line_text(#[trigger] l1[i]) == line_text(l2[i]),
{
    lemma_sorted_unique(s1, s2);
}

/// Law: every rendered line shows its entry's name in exactly the common
/// width: the icon, then the name padded to the width, then the
/// annotation.
pub proof fn lemma_line_shape(lines: Seq<Line>, s: Seq<ProjectEntry>, show_remote: bool, i: int)
    requires
        lines_render(lines, s, show_remote),
        0 <= i < lines.len(),
    ensures
        padded(s[i].name@, width_of(s)).len() == width_of(s),
        line_text(lines[i]) == type_icon(s[i].project) + padded(s[i].name@, width_of(s))
            + annotation_text(s[i], show_remote),
{
    lemma_width_of_bound(s, i);
    lemma_padded_len(s[i].name@, width_of(s));
}

/// Law: when remotes are not shown no line carries a remote annotation:
/// each line is the icon and the padded name alone.
pub proof fn lemma_no_remote_text(lines: Seq<Line>, s: Seq<ProjectEntry>, i: int)
    requires
        lines_render(lines, s, false),
        0 <= i < lines.len(),
    ensures
        line_text(lines[i]) == type_icon(s[i].project) + padded(s[i].name@, width_of(s)),
{
    assert(annotation_text(s[i], false) == Seq::<char>::empty());
    assert(type_icon(s[i].project) + padded(s[i].name@, width_of(s)) + Seq::<char>::empty()
        =~= type_icon(s[i].project) + padded(s[i].name@, width_of(s)));
}

/// Law: a listing of repositories alone renders no plain-directory line:
/// every line opens with the repository icon in red.
pub proof fn lemma_git_only_lines(lines: Seq<Line>, s: Seq<ProjectEntry>, show_remote: bool, i: int)
    requires
        lines_render(lines, s, show_remote),
        forall|k: int| 0 <= k < s.len() ==> is_repo(#[trigger] s[k]),
        0 <= i < lines.len(),
    ensures
        lines[i].segments@[0].color == TextColor::Red,
        lines[i].segments@[0].text@ == "\u{f02a2} "@ + padded(s[i].name@, width_of(s)),
{
    assert(is_repo(s[i]));
}

} // verus!
