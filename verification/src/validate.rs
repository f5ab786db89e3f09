//! Unified wiki validation: broken links and orphan pages in one report.

use vstd::prelude::*;
use crate::text::{append_chars, decimal, decimal_chars, from_chars, push_str, string_chars, string_views};
use crate::upkeep::{broken_links, check_links, list_orphans, orphans, WikiTree};

verus! {

/// The kind of a validation problem.
#[derive(Debug, Clone, Copy, PartialEq, Eq)]
pub enum ProblemKind {
    BrokenLink,
    Orphan,
}

impl ProblemKind {
    /// The name the JSON report gives the kind: `broken_link` or `orphan`.
    pub fn json_tag(&self) -> (t: &'static str)
        ensures
            t@ == match self {
                ProblemKind::BrokenLink => "broken_link"@,
                ProblemKind::Orphan => "orphan"@,
            },
    {
        match self {
            ProblemKind::BrokenLink => "broken_link",
            ProblemKind::Orphan => "orphan",
        }
    }
}

/// One validation problem: a broken-link line, or an orphan page path.
#[derive(Debug)]
pub struct Problem {
    pub kind: ProblemKind,
    pub message: String,
}

/// The outcome of validating a wiki.
#[derive(Debug)]
pub struct ValidationReport {
    pub wiki_root: String,
    pub problems: Vec<Problem>,
}

/// Problems with the given kind, each carrying one of `msgs`, in order.
pub open spec fn problems_of(kind: ProblemKind, msgs: Seq<Seq<char>>) -> Seq<(ProblemKind, Seq<char>)> {
    msgs.map_values(|m: Seq<char>| (kind, m))
}

/// The abstract content of a problem list.
pub open spec fn problem_views(ps: Seq<Problem>) -> Seq<(ProblemKind, Seq<char>)> {
    ps.map_values(|p: Problem| (p.kind, p.message@))
}

/// The messages of the problems of one kind, in order.
pub open spec fn messages_of(ps: Seq<(ProblemKind, Seq<char>)>, kind: ProblemKind) -> Seq<Seq<char>>
    decreases ps.len(),
{
    if ps.len() == 0 {
        seq![]
    } else if ps.last().0 == kind {
        messages_of(ps.drop_last(), kind).push(ps.last().1)
    } else {
        messages_of(ps.drop_last(), kind)
    }
}

/// Each message followed by a line break.
pub open spec fn as_lines(ms: Seq<Seq<char>>) -> Seq<char>
    decreases ms.len(),
{
    if ms.len() == 0 {
        seq![]
    } else {
        as_lines(ms.drop_last()) + ms.last() + seq!['\n']
    }
}

/// The text rendering of a report.
pub open spec fn report_text(root: Seq<char>, ps: Seq<(ProblemKind, Seq<char>)>) -> Seq<char> {
    if ps.len() == 0 {
        "OK: no problems under "@ + root
    } else {
        let broken = messages_of(ps, ProblemKind::BrokenLink);
        let orph = messages_of(ps, ProblemKind::Orphan);
        let a = if broken.len() > 0 {
            "Broken links:\n"@ + as_lines(broken)
        } else {
            seq![]
        };
        let b = if orph.len() > 0 {
            (if a.len() > 0 {
                a + seq!['\n']
            } else {
                a
            }) + "Orphan pages:\n"@ + as_lines(orph)
        } else {
            a
        };
        b + "\n"@ + decimal(ps.len() as nat) + " problem(s) total.\n"@
    }
}

fn push_problems(out: &mut Vec<Problem>, kind: ProblemKind, msgs: Vec<String>)
    ensures
        problem_views(final(out)@) == problem_views(old(out)@) + problems_of(kind, string_views(msgs@)),
{
    let ghost start = problem_views(old(out)@);
    let mut i: usize = 0;
    let mut rest = msgs;
    let ghost all = string_views(rest@);
    let mut taken: Vec<String> = Vec::new();
    while i < rest.len()
        invariant
            i <= rest.len(),
            all == string_views(rest@),
            problem_views(out@) == start + problems_of(kind, all.take(i as int)),
        decreases rest.len() - i,
    {
        let m = from_chars(&string_chars(&rest[i]));
        let ghost old = problem_views(out@);
        out.push(Problem { kind, message: m });
        assert(problem_views(out@) =~= old.push((kind, all[i as int])));
        assert(all.take(i + 1) =~= all.take(i as int).push(all[i as int]));
        i = i + 1;
    }
    assert(all.take(rest.len() as int) =~= all);
}

impl ValidationReport {
    /// Build a report from [`check_links`] and [`list_orphans`]: every broken
    /// link, then every orphan page. `wiki_root` is the displayed wiki root.
    pub fn run(wiki_root: &str, tree: &WikiTree) -> (r: ValidationReport)
        ensures
            r.wiki_root@ == wiki_root@,
            problem_views(r.problems@) == problems_of(
                ProblemKind::BrokenLink,
                broken_links(tree.paths(), tree.texts()),
            ) + problems_of(ProblemKind::Orphan, orphans(tree.paths(), tree.texts())),
    {
        let broken = check_links(tree);
        let orph = list_orphans(tree);
        let mut problems: Vec<Problem> = Vec::new();
        assert(problem_views(problems@) =~= Seq::<(ProblemKind, Seq<char>)>::empty());
        push_problems(&mut problems, ProblemKind::BrokenLink, broken);
        push_problems(&mut problems, ProblemKind::Orphan, orph);
        ValidationReport { wiki_root: from_chars(&string_chars_str(wiki_root)), problems }
    }

    /// No problems were found.
    pub fn is_clean(&self) -> (b: bool)
        ensures
            b == (self.problems@.len() == 0),
    {
        self.problems.len() == 0
    }

    /// The warning an export prints about a wiki with problems: their count
    /// and where to look; none for a clean wiki.
    pub fn unclean_warning(&self) -> (r: Option<String>)
        ensures
            match r {
                None => self.problems@.len() == 0,
                Some(w) => self.problems@.len() > 0 && w@
                    == "agwiki export-skill: wiki validation reported "@ + decimal(self.problems@.len() as nat)
                    + " problem(s); run `agwiki validate` for strict checks."@,
            },
    {
        if self.problems.len() == 0 {
            return None;
        }
        let mut v: Vec<char> = Vec::new();
        push_str(&mut v, "agwiki export-skill: wiki validation reported ");
        append_chars(&mut v, &decimal_chars(self.problems.len() as u64));
        push_str(&mut v, " problem(s); run `agwiki validate` for strict checks.");
        Some(from_chars(&v))
    }

    /// Human-readable report: `OK: ...` when clean, otherwise the broken links
    /// and orphan pages under headings and a total.
    pub fn to_text(&self) -> (r: String)
        ensures
            r@ == report_text(self.wiki_root@, problem_views(self.problems@)),
    {
        let ghost ps = problem_views(self.problems@);
        let mut out: Vec<char> = Vec::new();
        if self.problems.len() == 0 {
            push_str(&mut out, "OK: no problems under ");
            push_str(&mut out, self.wiki_root.as_str());
            return from_chars(&out);
        }
        let mut broken: Vec<char> = Vec::new();
        let mut orph: Vec<char> = Vec::new();
        let mut nb: usize = 0;
        let mut no: usize = 0;
        let mut i: usize = 0;
        while i < self.problems.len()
            invariant
                i <= self.problems.len(),
                ps == problem_views(self.problems@),
                broken@ == as_lines(messages_of(ps.take(i as int), ProblemKind::BrokenLink)),
                orph@ == as_lines(messages_of(ps.take(i as int), ProblemKind::Orphan)),
                nb == messages_of(ps.take(i as int), ProblemKind::BrokenLink).len(),
                no == messages_of(ps.take(i as int), ProblemKind::Orphan).len(),
                nb <= i,
                no <= i,
            decreases self.problems.len() - i,
        {
            let p = &self.problems[i];
            assert(ps.take(i + 1).drop_last() =~= ps.take(i as int));
            assert(ps.take(i + 1).last() == (p.kind, p.message@));
            let m = string_chars(&p.message);
            let ghost ob = messages_of(ps.take(i as int), ProblemKind::BrokenLink);
            let ghost oo = messages_of(ps.take(i as int), ProblemKind::Orphan);
            let ghost old_broken = broken@;
            let ghost old_orph = orph@;
            match p.kind {
                ProblemKind::BrokenLink => {
                    append_chars(&mut broken, &m);
                    broken.push('\n');
                    nb = nb + 1;
                    assert(messages_of(ps.take(i + 1), ProblemKind::BrokenLink) == ob.push(m@));
                    assert(ob.push(m@).drop_last() =~= ob);
                    assert(broken@ =~= old_broken + m@ + seq!['\n']);
                },
                ProblemKind::Orphan => {
                    append_chars(&mut orph, &m);
                    orph.push('\n');
                    no = no + 1;
                    assert(messages_of(ps.take(i + 1), ProblemKind::Orphan) == oo.push(m@));
                    assert(oo.push(m@).drop_last() =~= oo);
                    assert(orph@ =~= old_orph + m@ + seq!['\n']);
                },
            }
            i = i + 1;
        }
        assert(ps.take(self.problems.len() as int) =~= ps);
        if nb > 0 {
            push_str(&mut out, "Broken links:\n");
            append_chars(&mut out, &broken);
        }
        if no > 0 {
            if out.len() > 0 {
                out.push('\n');
            }
            push_str(&mut out, "Orphan pages:\n");
            append_chars(&mut out, &orph);
        }
        push_str(&mut out, "\n");
        let d = decimal_chars(self.problems.len() as u64);
        append_chars(&mut out, &d);
        push_str(&mut out, " problem(s) total.\n");
        from_chars(&out)
    }
}

fn string_chars_str(s: &str) -> (v: Vec<char>)
    ensures
        v@ == s@,
{
    crate::text::to_chars(s)
}

/// Run link and orphan checks; same as [`ValidationReport::run`].
pub fn validate_wiki(wiki_root: &str, tree: &WikiTree) -> (r: ValidationReport)
    ensures
        r.wiki_root@ == wiki_root@,
        problem_views(r.problems@) == problems_of(
            ProblemKind::BrokenLink,
            broken_links(tree.paths(), tree.texts()),
        ) + problems_of(ProblemKind::Orphan, orphans(tree.paths(), tree.texts())),
{
    ValidationReport::run(wiki_root, tree)
}

/// A wiki passes validation exactly when it has no broken link and no
/// orphan page, and then its text report is the `OK` line.
pub proof fn law_clean_iff_no_problems(r: ValidationReport, tree: WikiTree)
    requires
        problem_views(r.problems@) == problems_of(
            ProblemKind::BrokenLink,
            broken_links(tree.paths(), tree.texts()),
        ) + problems_of(ProblemKind::Orphan, orphans(tree.paths(), tree.texts())),
    ensures
        (r.problems@.len() == 0) <==> (broken_links(tree.paths(), tree.texts()).len() == 0
            && orphans(tree.paths(), tree.texts()).len() == 0),
        r.problems@.len() == 0 ==> report_text(r.wiki_root@, problem_views(r.problems@))
            == "OK: no problems under "@ + r.wiki_root@,
{
    assert(problem_views(r.problems@).len() == r.problems@.len());
}

proof fn lemma_messages_of_append(p: Seq<(ProblemKind, Seq<char>)>, k2: ProblemKind, b: Seq<Seq<char>>, k: ProblemKind)
    ensures
        messages_of(p + problems_of(k2, b), k) == messages_of(p, k) + (if k2 == k {
            b
        } else {
            Seq::<Seq<char>>::empty()
        }),
    decreases b.len(),
{
    let s = p + problems_of(k2, b);
    if b.len() == 0 {
        assert(s =~= p);
        assert(messages_of(p, k) + Seq::<Seq<char>>::empty() =~= messages_of(p, k));
        assert(messages_of(p, k) + b =~= messages_of(p, k));
    } else {
        lemma_messages_of_append(p, k2, b.drop_last(), k);
        assert(s.drop_last() =~= p + problems_of(k2, b.drop_last()));
        assert(s.last() == (k2, b.last()));
        if k2 == k {
            assert(messages_of(p, k) + b.drop_last() + seq![b.last()] =~= messages_of(p, k) + b);
            assert(messages_of(s, k) == messages_of(s.drop_last(), k).push(b.last()));
            assert(messages_of(p, k) + b.drop_last() + seq![b.last()] =~= (messages_of(p, k)
                + b.drop_last()).push(b.last()));
        }
    }
}

/// A report lists exactly the broken links that `check_links` finds, in its
/// order, and then exactly the orphan pages that `list_orphans` finds, in
/// its order: reading the report back by kind gives each list unchanged.
pub proof fn law_report_is_links_then_orphans(r: ValidationReport, tree: WikiTree, ls: Seq<Seq<char>>, os: Seq<Seq<char>>)
    requires
        ls == broken_links(tree.paths(), tree.texts()),
        os == orphans(tree.paths(), tree.texts()),
        problem_views(r.problems@) == problems_of(ProblemKind::BrokenLink, ls) + problems_of(
            ProblemKind::Orphan,
            os,
        ),
    ensures
        r.problems@.len() == ls.len() + os.len(),
        forall|i: int| 0 <= i < ls.len() ==> #[trigger] problem_views(r.problems@)[i] == (ProblemKind::BrokenLink, ls[i]),
        forall|i: int| 0 <= i < os.len() ==> #[trigger] problem_views(r.problems@)[ls.len() + i] == (ProblemKind::Orphan, os[i]),
        messages_of(problem_views(r.problems@), ProblemKind::BrokenLink) == ls,
        messages_of(problem_views(r.problems@), ProblemKind::Orphan) == os,
{
    let e = Seq::<(ProblemKind, Seq<char>)>::empty();
    assert(problems_of(ProblemKind::BrokenLink, ls) =~= e + problems_of(ProblemKind::BrokenLink, ls));
    lemma_messages_of_append(e, ProblemKind::BrokenLink, ls, ProblemKind::BrokenLink);
    lemma_messages_of_append(e, ProblemKind::BrokenLink, ls, ProblemKind::Orphan);
    let p = problems_of(ProblemKind::BrokenLink, ls);
    lemma_messages_of_append(p, ProblemKind::Orphan, os, ProblemKind::BrokenLink);
    lemma_messages_of_append(p, ProblemKind::Orphan, os, ProblemKind::Orphan);
    assert(messages_of(e, ProblemKind::BrokenLink) == Seq::<Seq<char>>::empty());
    assert(messages_of(e, ProblemKind::Orphan) == Seq::<Seq<char>>::empty());
    assert(Seq::<Seq<char>>::empty() + ls =~= ls);
    assert(Seq::<Seq<char>>::empty() + Seq::<Seq<char>>::empty() =~= Seq::<Seq<char>>::empty());
    assert(ls + Seq::<Seq<char>>::empty() =~= ls);
    assert(Seq::<Seq<char>>::empty() + os =~= os);
    assert(problem_views(r.problems@).len() == r.problems@.len());
}

} // verus!
