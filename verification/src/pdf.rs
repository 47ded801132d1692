//! The export planner: one job (absolute URL and destination file) per
//! navigable chapter, in chapter order.

use vstd::prelude::*;
use vstd::string::*;

use crate::docusaurus::lemma_walk_positions;
use crate::docusaurus::pos_chars_ok;
use crate::docusaurus::spec_walk;
use crate::docusaurus::Chapter;
use crate::docusaurus::ChapterV;
use crate::docusaurus::MenuItem;
use crate::text::is_digit;
use crate::text::lemma_prepend_cancel;
use crate::text::str_eq;

verus! {

/// One planned export: the absolute URL to load and the file to write.
#[derive(Debug, Clone)]
pub struct ExportJob {
    /// The chapter's absolute URL: base URL followed by the relative link.
    pub url: String,
    /// The destination file: `{output_dir}/{position} - {title}.pdf`.
    pub dest_file: String,
}

/// The mathematical image of an `ExportJob`.
pub ghost struct ExportJobV {
    pub url: Seq<char>,
    pub dest_file: Seq<char>,
}

impl View for ExportJob {
    type V = ExportJobV;

    open spec fn view(&self) -> ExportJobV {
        ExportJobV { url: self.url@, dest_file: self.dest_file@ }
    }
}

impl DeepView for ExportJob {
    type V = ExportJobV;

    open spec fn deep_view(&self) -> ExportJobV {
        self.view()
    }
}

/// A chapter is exportable iff its relative link is not the non-navigable
/// sentinel `"#"`.
pub open spec fn spec_exportable(c: ChapterV) -> bool {
    c.relative_link != "#"@
}

/// The absolute URL a chapter is loaded from.
pub open spec fn spec_job_url(c: ChapterV, base: Seq<char>) -> Seq<char> {
    base + c.relative_link
}

/// The file a chapter is written to: `{output_dir}/{position} - {title}.pdf`.
pub open spec fn spec_dest_file(c: ChapterV, dir: Seq<char>) -> Seq<char> {
    dir + "/"@ + c.position + " - "@ + c.title + ".pdf"@
}

/// The export plan for a chapter list: one job per exportable chapter, in
/// chapter order; non-exportable chapters leave no trace.
pub open spec fn spec_plan(chs: Seq<ChapterV>, base: Seq<char>, dir: Seq<char>) -> Seq<ExportJobV>
    decreases chs.len(),
{
    if chs.len() == 0 {
        Seq::empty()
    } else {
        let rest = spec_plan(chs.drop_first(), base, dir);
        if spec_exportable(chs[0]) {
            seq![ExportJobV { url: spec_job_url(chs[0], base), dest_file: spec_dest_file(chs[0], dir) }]
                + rest
        } else {
            rest
        }
    }
}

/// The number of exportable chapters in a list.
pub open spec fn spec_count_exportable(chs: Seq<ChapterV>) -> nat
    decreases chs.len(),
{
    if chs.len() == 0 {
        0
    } else {
        (if spec_exportable(chs[0]) {
            1nat
        } else {
            0nat
        }) + spec_count_exportable(chs.drop_first())
    }
}

/// Law: the plan holds exactly one job for every exportable chapter, so an
/// export over N exportable chapters attempts exactly N files.
pub proof fn lemma_plan_len(chs: Seq<ChapterV>, base: Seq<char>, dir: Seq<char>)
    ensures
        spec_plan(chs, base, dir).len() == spec_count_exportable(chs),
    decreases chs.len(),
{
    if chs.len() > 0 {
        lemma_plan_len(chs.drop_first(), base, dir);
    }
}

/// Law: a chapter whose relative link is the sentinel `"#"` never produces
/// an export job; removing it from the list leaves the plan unchanged.
pub proof fn lemma_non_navigable_never_planned(
    chs: Seq<ChapterV>,
    base: Seq<char>,
    dir: Seq<char>,
    i: int,
)
    requires
        0 <= i < chs.len(),
        !spec_exportable(chs[i]),
    ensures
        spec_plan(chs, base, dir) == spec_plan(chs.remove(i), base, dir),
    decreases i,
{
    if i == 0 {
        assert(chs.remove(0) =~= chs.drop_first());
    } else {
        assert(chs.remove(i).drop_first() =~= chs.drop_first().remove(i - 1));
        assert(chs.remove(i)[0] == chs[0]);
        lemma_non_navigable_never_planned(chs.drop_first(), base, dir, i - 1);
    }
}

/// Law: the plan is a function of the chapter list, the base URL and the
/// output directory alone, so re-running an export writes the same set of
/// destination files instead of adding new ones.
pub proof fn lemma_replan_identical(
    jobs1: Seq<ExportJobV>,
    jobs2: Seq<ExportJobV>,
    chs: Seq<ChapterV>,
    base: Seq<char>,
    dir: Seq<char>,
)
    requires
        jobs1 == spec_plan(chs, base, dir),
        jobs2 == spec_plan(chs, base, dir),
    ensures
        jobs1 == jobs2,
{
}

/// Plans the export of a chapter list: skips every chapter whose relative
/// link is `"#"` and maps each remaining chapter to its absolute URL and
/// destination file.
pub fn plan_exports(chapters: &Vec<Chapter>, base_url: &str, output_dir: &str) -> (jobs: Vec<
    ExportJob,
>)
    ensures
        jobs.deep_view() == spec_plan(chapters.deep_view(), base_url@, output_dir@),
{
    let ghost chs = chapters.deep_view();
    let mut jobs: Vec<ExportJob> = Vec::new();
    let mut i: usize = 0;
    proof {
        assert(chs.skip(0) =~= chs);
        assert(jobs.deep_view() =~= Seq::<ExportJobV>::empty());
        assert(Seq::<ExportJobV>::empty() + spec_plan(chs, base_url@, output_dir@)
            =~= spec_plan(chs, base_url@, output_dir@));
    }
    while i < chapters.len()
        invariant
            i <= chapters@.len(),
            chs == chapters.deep_view(),
            spec_plan(chs, base_url@, output_dir@) == jobs.deep_view() + spec_plan(
                chs.skip(i as int),
                base_url@,
                output_dir@,
            ),
        decreases chapters@.len() - i,
    {
        let c = &chapters[i];
        let ghost before = jobs.deep_view();
        if !str_eq(c.relative_link.as_str(), "#") {
            let mut url = String::new();
            url.append(base_url);
            url.append(c.relative_link.as_str());
            let mut dest = String::new();
            dest.append(output_dir);
            dest.append("/");
            dest.append(c.position.as_str());
            dest.append(" - ");
            dest.append(c.title.as_str());
            dest.append(".pdf");
            proof {
                assert(url@ =~= spec_job_url(chs[i as int], base_url@));
                assert(dest@ =~= spec_dest_file(chs[i as int], output_dir@));
            }
            let job = ExportJob { url, dest_file: dest };
            let ghost jv = job@;
            jobs.push(job);
            proof {
                assert(jobs.deep_view() =~= before + seq![jv]);
            }
        }
        i = i + 1;
        proof {
            assert(chs.skip(i - 1).drop_first() =~= chs.skip(i as int));
            assert(chs.skip(i - 1)[0] == chs[i - 1]);
            assert(spec_plan(chs, base_url@, output_dir@) == jobs.deep_view() + spec_plan(
                chs.skip(i as int),
                base_url@,
                output_dir@,
            )) by {
                assert(forall|a: Seq<ExportJobV>, b: Seq<ExportJobV>, c: Seq<ExportJobV>|
                    #[trigger] ((a + b) + c) =~= a + (b + c));
            }
        }
    }
    proof {
        assert(chs.skip(i as int) =~= Seq::<ChapterV>::empty());
        assert(jobs.deep_view() + Seq::<ExportJobV>::empty() =~= jobs.deep_view());
    }
    jobs
}


/// Two chapters with different well-formed positions get different
/// destination files: a position holds no blank, so the blank after it pins
/// down where the position ends inside the file name.
pub proof fn lemma_dest_files_distinct(c1: ChapterV, c2: ChapterV, dir: Seq<char>)
    requires
        c1.position != c2.position,
        pos_chars_ok(c1.position),
        pos_chars_ok(c2.position),
    ensures
        spec_dest_file(c1, dir) != spec_dest_file(c2, dir),
{
    reveal_strlit(" - ");
    let pre = dir + "/"@;
    let p1 = c1.position;
    let p2 = c2.position;
    let t1 = " - "@ + c1.title + ".pdf"@;
    let t2 = " - "@ + c2.title + ".pdf"@;
    assert(spec_dest_file(c1, dir) =~= pre + (p1 + t1));
    assert(spec_dest_file(c2, dir) =~= pre + (p2 + t2));
    if spec_dest_file(c1, dir) == spec_dest_file(c2, dir) {
        lemma_prepend_cancel(pre, p1 + t1, p2 + t2);
        let l1 = p1.len() as int;
        let l2 = p2.len() as int;
        if l1 == l2 {
            assert forall|i: int| 0 <= i < l1 implies p1[i] == p2[i] by {
                assert((p1 + t1)[i] == p1[i]);
                assert((p2 + t2)[i] == p2[i]);
            }
            assert(p1 =~= p2);
        } else if l1 < l2 {
            assert((p1 + t1)[l1] == t1[l1 - l1]);
            assert(t1[0] == " - "@[0]);
            assert((p2 + t2)[l1] == p2[l1]);
            assert(is_digit(p2[l1]) || p2[l1] == '.');
        } else {
            assert((p2 + t2)[l2] == t2[l2 - l2]);
            assert(t2[0] == " - "@[0]);
            assert((p1 + t1)[l2] == p1[l2]);
            assert(is_digit(p1[l2]) || p1[l2] == '.');
        }
    }
}

/// Every planned job takes its destination file from some chapter of the
/// planned list.
proof fn lemma_plan_job_source(chs: Seq<ChapterV>, base: Seq<char>, dir: Seq<char>, m: int)
    requires
        0 <= m < spec_plan(chs, base, dir).len(),
    ensures
        exists|k: int|
            0 <= k < chs.len() && spec_plan(chs, base, dir)[m].dest_file == #[trigger] spec_dest_file(
                chs[k],
                dir,
            ),
    decreases chs.len(),
{
    let plan = spec_plan(chs, base, dir);
    let tail = chs.drop_first();
    let pr = spec_plan(tail, base, dir);
    if spec_exportable(chs[0]) {
        let j0 = ExportJobV { url: spec_job_url(chs[0], base), dest_file: spec_dest_file(chs[0], dir) };
        assert(plan == seq![j0] + pr);
        if m == 0 {
            assert(plan[0] == j0);
        } else {
            assert(plan[m] == pr[m - 1]);
            lemma_plan_job_source(tail, base, dir, m - 1);
            let k = choose|k: int|
                0 <= k < tail.len() && pr[m - 1].dest_file == spec_dest_file(tail[k], dir);
            assert(tail[k] == chs[k + 1]);
            assert(plan[m].dest_file == spec_dest_file(chs[k + 1], dir));
        }
    } else {
        assert(plan == pr);
        lemma_plan_job_source(tail, base, dir, m);
        let k = choose|k: int|
            0 <= k < tail.len() && pr[m].dest_file == spec_dest_file(tail[k], dir);
        assert(tail[k] == chs[k + 1]);
        assert(plan[m].dest_file == spec_dest_file(chs[k + 1], dir));
    }
}

/// In the plan of a chapter list whose positions are well formed and
/// pairwise distinct, every two jobs name different destination files.
pub proof fn lemma_plan_dests_distinct(chs: Seq<ChapterV>, base: Seq<char>, dir: Seq<char>)
    requires
        forall|i: int, j: int| 0 <= i < j < chs.len() ==> chs[i].position != chs[j].position,
        forall|i: int| 0 <= i < chs.len() ==> pos_chars_ok(#[trigger] chs[i].position),
    ensures
        ({
            let plan = spec_plan(chs, base, dir);
            forall|m: int, n: int|
                0 <= m < n < plan.len() ==> plan[m].dest_file != plan[n].dest_file
        }),
    decreases chs.len(),
{
    let plan = spec_plan(chs, base, dir);
    if chs.len() > 0 {
        let tail = chs.drop_first();
        let pr = spec_plan(tail, base, dir);
        assert forall|i: int| 0 <= i < tail.len() implies pos_chars_ok(
            #[trigger] tail[i].position,
        ) by {
            assert(tail[i] == chs[i + 1]);
        }
        assert forall|i: int, j: int|
            0 <= i < j < tail.len() implies tail[i].position != tail[j].position by {
            assert(tail[i] == chs[i + 1]);
            assert(tail[j] == chs[j + 1]);
        }
        lemma_plan_dests_distinct(tail, base, dir);
        if spec_exportable(chs[0]) {
            let j0 = ExportJobV { url: spec_job_url(chs[0], base), dest_file: spec_dest_file(chs[0], dir) };
            assert(plan == seq![j0] + pr);
            assert forall|n: int| 0 <= n < pr.len() implies j0.dest_file != pr[n].dest_file by {
                lemma_plan_job_source(tail, base, dir, n);
                let k = choose|k: int|
                    0 <= k < tail.len() && pr[n].dest_file == spec_dest_file(tail[k], dir);
                assert(tail[k] == chs[k + 1]);
                lemma_dest_files_distinct(chs[0], chs[k + 1], dir);
            }
            assert forall|m: int, n: int|
                0 <= m < n < plan.len() implies plan[m].dest_file != plan[n].dest_file by {
                if m == 0 {
                    assert(plan[0] == j0);
                    assert(plan[n] == pr[n - 1]);
                } else {
                    assert(plan[m] == pr[m - 1]);
                    assert(plan[n] == pr[n - 1]);
                }
            }
        } else {
            assert(plan == pr);
        }
    }
}

/// Law: no two concurrent export units ever write the same file.  In the
/// plan of any successful walk from the sidebar root, every two jobs name
/// different destination files, whatever the chapters' titles are.
pub proof fn lemma_no_write_collides(items: Seq<MenuItem>, base: Seq<char>, dir: Seq<char>)
    requires
        spec_walk(items, None, 0) is Ok,
    ensures
        ({
            let jobs = spec_plan(spec_walk(items, None, 0)->Ok_0, base, dir);
            forall|m: int, n: int|
                0 <= m < n < jobs.len() ==> jobs[m].dest_file != jobs[n].dest_file
        }),
{
    lemma_walk_positions(items, None, 0);
    lemma_plan_dests_distinct(spec_walk(items, None, 0)->Ok_0, base, dir);
}

} // verus!
