//! Committing a draft into the garden: the decision of what to write, a
//! model of the garden directory, and the write-to-temp-then-rename
//! discipline that keeps a half-written entry from ever becoming visible.

use vstd::prelude::*;

use crate::draft::EntryDraft;
use crate::naming::{
    all_safe, derive_name, derived_name_of, lemma_derived_name_safe, lemma_resolved_name_safe,
    resolve_collision, resolved_ok, taken,
};

verus! {

/// What one commit decides before touching the filesystem: skip an
/// abandoned draft, or store `content` under `name`.
pub enum CommitPlan {
    Skip,
    Store { name: Vec<u8>, content: Vec<u8> },
}

/// The contract of a commit decision: an abandoned draft is skipped; any
/// other draft is stored unchanged, under its derived name once collisions
/// in the listing are resolved.
pub open spec fn plan_ok(d: EntryDraft, names: Seq<Seq<u8>>, plan: CommitPlan) -> bool {
    if d.abandoned() {
        plan is Skip
    } else {
        match plan {
            CommitPlan::Skip => false,
            CommitPlan::Store { name, content } => {
                &&& content@ == d.body@
                &&& resolved_ok(names, derived_name_of(d.title.deep_view(), d.created), name@)
            },
        }
    }
}

/// Decides what to commit for `draft`, given the current directory
/// listing, exactly as `plan_ok` states it. Collision resolution runs
/// against the listing as it stands at commit time.
pub fn plan_commit(draft: &EntryDraft, existing: &Vec<Vec<u8>>) -> (plan: CommitPlan)
    requires
        draft.wf(),
    ensures
        plan_ok(*draft, existing.deep_view(), plan),
{
    if draft.is_abandoned() {
        CommitPlan::Skip
    } else {
        let base = derive_name(&draft.title, &draft.created);
        let name = resolve_collision(&base, existing);
        let content = draft.body.clone();
        proof {
            assert(content@ =~= draft.body@);
        }
        CommitPlan::Store { name, content }
    }
}

/// Commits `draft` against a listing held in memory: plans the commit and,
/// when something is stored, records the new name in the listing, so that
/// a later commit resolves collisions against it. Returns the stored name,
/// or `None` for an abandoned draft.
pub fn commit_into(existing: &mut Vec<Vec<u8>>, draft: &EntryDraft) -> (r: Option<Vec<u8>>)
    requires
        draft.wf(),
    ensures
        match r {
            Option::None => draft.abandoned() && final(existing).deep_view() == old(
                existing,
            ).deep_view(),
            Option::Some(name) => {
                &&& !draft.abandoned()
                &&& resolved_ok(
                    old(existing).deep_view(),
                    derived_name_of(draft.title.deep_view(), draft.created),
                    name@,
                )
                &&& final(existing).deep_view() == old(existing).deep_view().push(name@)
            },
        },
{
    if draft.is_abandoned() {
        return None;
    }
    let base = derive_name(&draft.title, &draft.created);
    let name = resolve_collision(&base, existing);
    let stored = name.clone();
    proof {
        assert(stored@ =~= name@);
    }
    existing.push(stored);
    proof {
        let before = old(existing).deep_view();
        assert forall|i: int| 0 <= i < existing@.len() implies existing.deep_view()[i]
            == before.push(name@)[i] by {
            if i < before.len() {
                assert(existing@[i] == old(existing)@[i]);
            } else {
                assert(existing@[i]@ == name@);
            }
        }
        assert(existing.deep_view() =~= before.push(name@));
    }
    Some(name)
}

/// The temp name the commit discipline writes behind before the rename:
/// the target name with `.part` appended.
pub open spec fn temp_name_of(name: Seq<u8>) -> Seq<u8> {
    name + seq![46u8, 112u8, 97u8, 114u8, 116u8]
}

/// Builds the temp name for an entry, exactly as `temp_name_of` states it.
/// The caller writes the content here first and renames it to `name` only
/// once the write went through whole.
pub fn temp_file_name(name: &Vec<u8>) -> (r: Vec<u8>)
    ensures
        r@ == temp_name_of(name@),
{
    let mut out = name.clone();
    out.push(46);
    out.push(112);
    out.push(97);
    out.push(114);
    out.push(116);
    proof {
        assert(out@ =~= temp_name_of(name@));
    }
    out
}

/// The directory after the first commit step: the content stands complete
/// under the temp name; the final name is untouched.
pub open spec fn after_temp_write(
    dir: Map<Seq<u8>, Seq<u8>>,
    name: Seq<u8>,
    content: Seq<u8>,
) -> Map<Seq<u8>, Seq<u8>> {
    dir.insert(temp_name_of(name), content)
}

/// The directory after the rename step: the temp entry moves under the
/// final name in one atomic step.
pub open spec fn after_rename(
    dir: Map<Seq<u8>, Seq<u8>>,
    name: Seq<u8>,
    content: Seq<u8>,
) -> Map<Seq<u8>, Seq<u8>> {
    dir.remove(temp_name_of(name)).insert(name, content)
}

/// The directory a finished commit leaves: unchanged on a skip; on a store,
/// the temp write followed by the rename.
pub open spec fn after_commit(dir: Map<Seq<u8>, Seq<u8>>, plan: CommitPlan) -> Map<
    Seq<u8>,
    Seq<u8>,
> {
    match plan {
        CommitPlan::Skip => dir,
        CommitPlan::Store { name, content } => after_rename(
            after_temp_write(dir, name@, content@),
            name@,
            content@,
        ),
    }
}

/// A garden directory in good standing: every entry carries a
/// filesystem-safe name. Temp artifacts carry a `.part` suffix, which no
/// safe name holds, so the two namespaces never meet.
pub open spec fn safe_dir(dir: Map<Seq<u8>, Seq<u8>>) -> bool {
    forall|n: Seq<u8>| #[trigger] dir.contains_key(n) ==> all_safe(n)
}

/// The listing a commit resolves collisions against covers the directory:
/// every entry's name is listed.
pub open spec fn listing_covers(names: Seq<Seq<u8>>, dir: Map<Seq<u8>, Seq<u8>>) -> bool {
    forall|n: Seq<u8>| #[trigger] dir.contains_key(n) ==> taken(names, n)
}

/// A safe name is never a temp name: temp names end in `.part`, and `.`
/// is not a safe byte.
proof fn lemma_safe_name_not_temp(a: Seq<u8>, b: Seq<u8>)
    requires
        all_safe(a),
    ensures
        a != temp_name_of(b),
{
    if a == temp_name_of(b) {
        assert(temp_name_of(b)[b.len() as int] == 46u8);
        assert(a[b.len() as int] == 46u8);
    }
}

/// Commit is atomic. A failure between the temp write and the rename
/// leaves no entry under the final name: the temp step touches only the
/// temp name, and every existing entry keeps its content.
pub proof fn lemma_commit_atomic(dir: Map<Seq<u8>, Seq<u8>>, name: Seq<u8>, content: Seq<u8>)
    requires
        safe_dir(dir),
        all_safe(name),
        !dir.contains_key(name),
    ensures
        !after_temp_write(dir, name, content).contains_key(name),
        forall|n: Seq<u8>| #[trigger] dir.contains_key(n) ==> after_temp_write(dir, name, content)
            .contains_key(n) && after_temp_write(dir, name, content)[n] == dir[n],
{
    lemma_safe_name_not_temp(name, name);
    assert forall|n: Seq<u8>| #[trigger] dir.contains_key(n) implies after_temp_write(
        dir,
        name,
        content,
    ).contains_key(n) && after_temp_write(dir, name, content)[n] == dir[n] by {
        lemma_safe_name_not_temp(n, name);
    }
}

/// A completed store adds exactly one entry: the new name carries the new
/// content, every entry that was there keeps its content, and every name
/// in the directory stays filesystem-safe.
pub proof fn lemma_commit_stores(dir: Map<Seq<u8>, Seq<u8>>, name: Seq<u8>, content: Seq<u8>)
    requires
        safe_dir(dir),
        all_safe(name),
        !dir.contains_key(name),
    ensures
        after_rename(after_temp_write(dir, name, content), name, content).contains_key(name),
        after_rename(after_temp_write(dir, name, content), name, content)[name] == content,
        forall|n: Seq<u8>| #[trigger] dir.contains_key(n) ==> after_rename(
            after_temp_write(dir, name, content),
            name,
            content,
        ).contains_key(n) && after_rename(after_temp_write(dir, name, content), name, content)[n]
            == dir[n],
        safe_dir(after_rename(after_temp_write(dir, name, content), name, content)),
{
    let fin = after_rename(after_temp_write(dir, name, content), name, content);
    assert forall|n: Seq<u8>| #[trigger] dir.contains_key(n) implies fin.contains_key(n) && fin[n]
        == dir[n] by {
        lemma_safe_name_not_temp(n, name);
    }
    assert forall|n: Seq<u8>| #[trigger] fin.contains_key(n) implies all_safe(n) by {
        lemma_safe_name_not_temp(name, name);
        if n != name {
            assert(dir.contains_key(n));
        }
    }
}

/// An abandoned draft commits nothing: the plan is a skip, and a skip
/// leaves the directory exactly as it was.
pub proof fn lemma_abandoned_commits_nothing(
    dir: Map<Seq<u8>, Seq<u8>>,
    d: EntryDraft,
    names: Seq<Seq<u8>>,
    plan: CommitPlan,
)
    requires
        plan_ok(d, names, plan),
        d.abandoned(),
    ensures
        plan is Skip,
        after_commit(dir, plan) == dir,
{
}

/// A commit never overwrites. When the listing covers the directory, a
/// stored entry's name is fresh: it differs from every existing entry's
/// name, the entry already stored keeps its content, and the new entry is
/// readable under its own name.
pub proof fn lemma_commit_never_overwrites(
    dir: Map<Seq<u8>, Seq<u8>>,
    d: EntryDraft,
    names: Seq<Seq<u8>>,
    plan: CommitPlan,
    prior: Seq<u8>,
)
    requires
        d.wf(),
        !d.abandoned(),
        plan_ok(d, names, plan),
        listing_covers(names, dir),
        safe_dir(dir),
        dir.contains_key(prior),
    ensures
        plan matches CommitPlan::Store { name, content } ==> {
            &&& name@ != prior
            &&& !dir.contains_key(name@)
            &&& after_commit(dir, plan).contains_key(prior)
            &&& after_commit(dir, plan)[prior] == dir[prior]
            &&& after_commit(dir, plan).contains_key(name@)
            &&& after_commit(dir, plan)[name@] == content@
            &&& safe_dir(after_commit(dir, plan))
        },
{
    match plan {
        CommitPlan::Skip => {},
        CommitPlan::Store { name, content } => {
            let base = derived_name_of(d.title.deep_view(), d.created);
            lemma_derived_name_safe(d.title.deep_view(), d.created);
            lemma_resolved_name_safe(names, base, name@);
            assert(!taken(names, name@));
            assert(!dir.contains_key(name@));
            lemma_commit_stores(dir, name@, content@);
        },
    }
}

} // verus!
