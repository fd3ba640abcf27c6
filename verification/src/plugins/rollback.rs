//! How an update of a plugin is undone: what is put aside before it, and what
//! is brought back when it fails.
use crate::order::viewed;
use crate::paths::{file_stem, names_fall_apart_at_their_last_dot, path_stem};
use crate::plugins::package::{manifest_file_name, manifest_name};
use crate::text::{cat2, views};
use vstd::prelude::*;

verus! {

// ── Steps ────────────────────────────────────────────────────────────────────

/// A place for a file or a directory of a plugin.
#[derive(Debug)]
pub enum Spot {
    /// A name in the directory of the plugin.
    Stored(String),
    /// A name among what was put aside.
    Saved(String),
    /// The unit of its service, where systemd looks for it.
    Unit,
}

/// A place for a file or a directory of a plugin.
pub enum SpotView {
    Stored(Seq<char>),
    Saved(Seq<char>),
    Unit,
}

impl View for Spot {
    type V = SpotView;

    open spec fn view(&self) -> SpotView {
        match *self {
            Spot::Stored(name) => SpotView::Stored(name@),
            Spot::Saved(name) => SpotView::Saved(name@),
            Spot::Unit => SpotView::Unit,
        }
    }
}

/// A step of putting aside or bringing back.
#[derive(Debug)]
pub enum Step {
    /// Forget all that was put aside.
    Clear,
    /// Move what is at one place, if anything, to another.
    Move(Spot, Spot),
    /// Copy what is at one place, if anything, to another.
    Copy(Spot, Spot),
    /// Copy what is at one place to another, or empty the other where there is
    /// nothing to copy.
    Mirror(Spot, Spot),
    /// Empty a place.
    Remove(Spot),
}

/// A step of putting aside or bringing back.
pub enum StepView {
    Clear,
    Move(SpotView, SpotView),
    Copy(SpotView, SpotView),
    Mirror(SpotView, SpotView),
    Remove(SpotView),
}

impl View for Step {
    type V = StepView;

    open spec fn view(&self) -> StepView {
        match *self {
            Step::Clear => StepView::Clear,
            Step::Move(from, to) => StepView::Move(from@, to@),
            Step::Copy(from, to) => StepView::Copy(from@, to@),
            Step::Mirror(from, to) => StepView::Mirror(from@, to@),
            Step::Remove(at) => StepView::Remove(at@),
        }
    }
}

/// What is at a place, if anything.
pub open spec fn look<C>(files: Map<SpotView, C>, at: SpotView) -> Option<C> {
    if files.contains_key(at) {
        Some(files[at])
    } else {
        None
    }
}

/// The files after a step, where `files` says what is at which place.
pub open spec fn after_step<C>(files: Map<SpotView, C>, step: StepView) -> Map<SpotView, C> {
    match step {
        StepView::Clear => files.restrict(Set::new(|at: SpotView| !(at is Saved))),
        StepView::Move(from, to) => if files.contains_key(from) {
            files.insert(to, files[from]).remove(from)
        } else {
            files
        },
        StepView::Copy(from, to) => if files.contains_key(from) {
            files.insert(to, files[from])
        } else {
            files
        },
        StepView::Mirror(from, to) => if files.contains_key(from) {
            files.insert(to, files[from])
        } else {
            files.remove(to)
        },
        StepView::Remove(at) => files.remove(at),
    }
}

/// The files after steps.
pub open spec fn after_steps<C>(files: Map<SpotView, C>, steps: Seq<StepView>) -> Map<SpotView, C>
    decreases steps.len(),
{
    if steps.len() == 0 {
        files
    } else {
        after_step(after_steps(files, steps.drop_last()), steps.last())
    }
}

// ── Names ────────────────────────────────────────────────────────────────────

/// The name that the files of a service are named after.
pub open spec fn base_name(service: Seq<char>) -> Seq<char> {
    match file_stem(service) {
        Some(stem) => stem,
        None => service,
    }
}

/// The name that the files of a service are named after.
fn base_of_service(service_name: &str) -> (out: String)
    ensures
        out@ == base_name(service_name@),
{
    match path_stem(service_name) {
        Some(stem) => stem,
        None => service_name.to_owned(),
    }
}

/// What is put aside of a plugin, in order.
pub open spec fn kept_names(service: Seq<char>) -> Seq<Seq<char>> {
    seq![
        "current"@,
        "package.zip"@,
        manifest_name(),
        service,
        base_name(service) + ".sha256"@,
        base_name(service) + ".sig"@,
        base_name(service) + ".sign"@,
    ]
}

/// What is brought back of a plugin, in order.
pub open spec fn restored_names(service: Seq<char>) -> Seq<Seq<char>> {
    seq![
        "current"@,
        "package.zip"@,
        manifest_name(),
        base_name(service) + ".sig"@,
        base_name(service) + ".sign"@,
        service,
        base_name(service) + ".sha256"@,
    ]
}

/// What is put aside of a plugin, in order.
fn names_to_keep(service_name: &str) -> (out: Vec<String>)
    ensures
        views(out@) == kept_names(service_name@),
{
    let base = base_of_service(service_name);
    let mut out: Vec<String> = Vec::new();
    out.push("current".to_owned());
    out.push("package.zip".to_owned());
    out.push(manifest_file_name().to_owned());
    out.push(service_name.to_owned());
    out.push(cat2(base.as_str(), ".sha256"));
    out.push(cat2(base.as_str(), ".sig"));
    out.push(cat2(base.as_str(), ".sign"));
    assert(views(out@) =~= kept_names(service_name@));
    out
}

/// What is brought back of a plugin, in order.
fn names_to_restore(service_name: &str) -> (out: Vec<String>)
    ensures
        views(out@) == restored_names(service_name@),
{
    let base = base_of_service(service_name);
    let mut out: Vec<String> = Vec::new();
    out.push("current".to_owned());
    out.push("package.zip".to_owned());
    out.push(manifest_file_name().to_owned());
    out.push(cat2(base.as_str(), ".sig"));
    out.push(cat2(base.as_str(), ".sign"));
    out.push(service_name.to_owned());
    out.push(cat2(base.as_str(), ".sha256"));
    assert(views(out@) =~= restored_names(service_name@));
    out
}

// ── Plans ────────────────────────────────────────────────────────────────────

/// Putting names aside.
pub open spec fn saves(names: Seq<Seq<char>>) -> Seq<StepView> {
    names.map_values(
        |n: Seq<char>| StepView::Move(SpotView::Stored(n), SpotView::Saved(n)),
    )
}

/// Bringing names back.
pub open spec fn restores(names: Seq<Seq<char>>) -> Seq<StepView> {
    names.map_values(
        |n: Seq<char>| StepView::Move(SpotView::Saved(n), SpotView::Stored(n)),
    )
}

/// Removing names.
pub open spec fn removals(names: Seq<Seq<char>>) -> Seq<StepView> {
    names.map_values(|n: Seq<char>| StepView::Remove(SpotView::Stored(n)))
}

/// What is done before a plugin is updated.
pub open spec fn prepare_plan(service: Seq<char>) -> Seq<StepView> {
    seq![StepView::Clear] + saves(kept_names(service)) + seq![
        StepView::Copy(SpotView::Unit, SpotView::Saved(service)),
    ]
}

/// What is done after an update that failed: the names that were put aside are
/// removed and brought back, and the unit is made to follow.
pub open spec fn rollback_plan(service: Seq<char>) -> Seq<StepView> {
    removals(kept_names(service)) + restores(restored_names(service)) + seq![
        StepView::Mirror(SpotView::Saved(service), SpotView::Unit),
    ]
}

/// What is done before a plugin is updated.
pub fn prepare_rollback(service_name: &str) -> (out: Vec<Step>)
    ensures
        viewed(out@) == prepare_plan(service_name@),
{
    let names = names_to_keep(service_name);
    let ghost kept = kept_names(service_name@);
    let mut out: Vec<Step> = Vec::new();
    out.push(Step::Clear);
    assert(viewed(out@) =~= seq![StepView::Clear] + saves(kept.take(0)));
    let mut i: usize = 0;
    while i < names.len()
        invariant
            i <= names@.len(),
            views(names@) == kept,
            viewed(out@) == seq![StepView::Clear] + saves(kept.take(i as int)),
        decreases names@.len() - i,
    {
        let ghost before = viewed(out@);
        let step = Step::Move(Spot::Stored(names[i].clone()), Spot::Saved(names[i].clone()));
        out.push(step);
        proof {
            assert(kept[i as int] == names@[i as int]@);
            assert(viewed(out@) =~= before.push(step@));
            assert(saves(kept.take(i + 1)) =~= saves(kept.take(i as int)).push(step@));
            assert(seq![StepView::Clear] + saves(kept.take(i as int)).push(step@)
                =~= before.push(step@));
        }
        i += 1;
    }
    let ghost before = viewed(out@);
    let step = Step::Copy(Spot::Unit, Spot::Saved(service_name.to_owned()));
    out.push(step);
    proof {
        assert(kept.take(i as int) =~= kept);
        assert(viewed(out@) =~= before.push(step@));
        assert(viewed(out@) =~= prepare_plan(service_name@));
    }
    out
}

/// What is done after an update that failed.
pub fn rollback_install(service_name: &str) -> (out: Vec<Step>)
    ensures
        viewed(out@) == rollback_plan(service_name@),
{
    let names = names_to_keep(service_name);
    let back = names_to_restore(service_name);
    let ghost kept = kept_names(service_name@);
    let ghost restored = restored_names(service_name@);
    let mut out: Vec<Step> = Vec::new();
    assert(viewed(out@) =~= removals(kept.take(0)));
    let mut i: usize = 0;
    while i < names.len()
        invariant
            i <= names@.len(),
            views(names@) == kept,
            viewed(out@) == removals(kept.take(i as int)),
        decreases names@.len() - i,
    {
        let ghost before = viewed(out@);
        let step = Step::Remove(Spot::Stored(names[i].clone()));
        out.push(step);
        proof {
            assert(kept[i as int] == names@[i as int]@);
            assert(viewed(out@) =~= before.push(step@));
            assert(removals(kept.take(i + 1)) =~= before.push(step@));
        }
        i += 1;
    }
    assert(kept.take(i as int) =~= kept);
    assert(viewed(out@) =~= removals(kept) + restores(restored.take(0)));
    let mut j: usize = 0;
    while j < back.len()
        invariant
            j <= back@.len(),
            views(back@) == restored,
            viewed(out@) == removals(kept) + restores(restored.take(j as int)),
        decreases back@.len() - j,
    {
        let ghost before = viewed(out@);
        let step = Step::Move(Spot::Saved(back[j].clone()), Spot::Stored(back[j].clone()));
        out.push(step);
        proof {
            assert(restored[j as int] == back@[j as int]@);
            assert(viewed(out@) =~= before.push(step@));
            assert(restores(restored.take(j + 1)) =~= restores(restored.take(j as int)).push(
                step@,
            ));
            assert(removals(kept) + restores(restored.take(j as int)).push(step@)
                =~= before.push(step@));
        }
        j += 1;
    }
    let ghost before = viewed(out@);
    let step = Step::Mirror(Spot::Saved(service_name.to_owned()), Spot::Unit);
    out.push(step);
    proof {
        assert(restored.take(j as int) =~= restored);
        assert(viewed(out@) =~= before.push(step@));
        assert(viewed(out@) =~= rollback_plan(service_name@));
    }
    out
}

/// What becomes of a service after an update that failed: whether it is
/// enabled, and whether it is started.
#[derive(Debug, Clone, Copy, PartialEq, Eq, Structural)]
pub struct ServiceAftermath {
    pub enable: bool,
    pub start: bool,
    /// Whether its unit is removed.
    pub remove_unit: bool,
}

/// What becomes of the service after an update that failed. `enabled` says
/// whether the books have the plugin, and as an enabled one; a plugin that they
/// do not have loses its unit.
pub fn service_aftermath(enabled: Option<bool>, running: bool) -> (out: ServiceAftermath)
    ensures
        out == (match enabled {
            Some(enabled) => ServiceAftermath {
                enable: enabled,
                start: running || enabled,
                remove_unit: false,
            },
            None => ServiceAftermath { enable: false, start: false, remove_unit: true },
        }),
{
    match enabled {
        Some(enabled) => ServiceAftermath {
            enable: enabled,
            start: running || enabled,
            remove_unit: false,
        },
        None => ServiceAftermath { enable: false, start: false, remove_unit: true },
    }
}

// ── Laws ─────────────────────────────────────────────────────────────────────

/// A failed update leaves the files of a plugin as they were. `before` is what
/// was at which place before the update, `broken` what the update made of it:
/// the update may have changed the plugin's files and its unit in any way, but
/// not what was put aside. Then every name that is kept is back, nothing else
/// in the plugin's directory has changed, and nothing that was put aside is
/// left. The stored unit is the one that was installed, if there was one; the
/// installed one is gone.
pub proof fn failed_updates_are_undone<C>(
    before: Map<SpotView, C>,
    broken: Map<SpotView, C>,
    service: Seq<char>,
)
    requires
        ".service"@.is_suffix_of(service),
        forall|n: Seq<char>| #[trigger]
            look(broken, SpotView::Saved(n)) == look(
                after_steps(before, prepare_plan(service)),
                SpotView::Saved(n),
            ),
    ensures
        ({
            let after = after_steps(broken, rollback_plan(service));
            &&& forall|n: Seq<char>|
                kept_names(service).contains(n) && n != service ==> #[trigger] look(
                    after,
                    SpotView::Stored(n),
                ) == look(before, SpotView::Stored(n))
            &&& forall|n: Seq<char>|
                !kept_names(service).contains(n) ==> #[trigger] look(after, SpotView::Stored(n))
                    == look(broken, SpotView::Stored(n))
            &&& forall|n: Seq<char>| #[trigger] look(after, SpotView::Saved(n)) is None
            &&& look(after, SpotView::Unit) is None
            &&& look(after, SpotView::Stored(service)) == (if look(before, SpotView::Unit) is Some {
                look(before, SpotView::Unit)
            } else {
                look(before, SpotView::Stored(service))
            })
        }),
{
    let kept = kept_names(service);
    let restored = restored_names(service);
    lemma_names_differ(service);
    lemma_same_names(service);
    // Putting aside.
    let cleared = after_step(before, StepView::Clear);
    let moved = after_steps(cleared, saves(kept));
    let copy = StepView::Copy(SpotView::Unit, SpotView::Saved(service));
    let head = seq![StepView::Clear];
    assert(head.drop_last() =~= Seq::<StepView>::empty());
    assert(after_steps(before, Seq::<StepView>::empty()) == before);
    assert(after_steps(before, head) == cleared);
    lemma_run_append(before, head, saves(kept));
    let prepared = after_steps(before, prepare_plan(service));
    assert(prepare_plan(service) =~= (head + saves(kept)).push(copy));
    assert(prepare_plan(service).drop_last() =~= head + saves(kept));
    assert(prepared == after_step(moved, copy));
    lemma_saves(cleared, kept);
    assert(kept[3] == service);
    // Bringing back.
    let emptied = after_steps(broken, removals(kept));
    let back = after_steps(emptied, restores(restored));
    let mirror = StepView::Mirror(SpotView::Saved(service), SpotView::Unit);
    lemma_run_append(broken, removals(kept), restores(restored));
    let after = after_steps(broken, rollback_plan(service));
    assert(rollback_plan(service) =~= (removals(kept) + restores(restored)).push(mirror));
    assert(rollback_plan(service).drop_last() =~= removals(kept) + restores(restored));
    assert(after == after_step(back, mirror));
    lemma_removals(broken, kept);
    lemma_restores(emptied, restored);
    assert(restored[5] == service);
    assert(look(back, SpotView::Saved(service)) is None);
    assert(after == back.remove(SpotView::Unit));
    assert forall|n: Seq<char>| #[trigger] look(prepared, SpotView::Saved(n)) == (if n == service
        && look(before, SpotView::Unit) is Some {
        look(before, SpotView::Unit)
    } else if kept.contains(n) {
        look(before, SpotView::Stored(n))
    } else {
        None
    }) by {
        assert(look(moved, SpotView::Unit) == look(cleared, SpotView::Unit));
        assert(look(cleared, SpotView::Saved(n)) is None);
        assert(look(cleared, SpotView::Stored(n)) == look(before, SpotView::Stored(n)));
        assert(look(moved, SpotView::Saved(n)) == (if kept.contains(n) && look(
            cleared,
            SpotView::Stored(n),
        ) is Some {
            look(cleared, SpotView::Stored(n))
        } else {
            look(cleared, SpotView::Saved(n))
        }));
    }
    assert forall|n: Seq<char>| #[trigger] look(after, SpotView::Saved(n)) is None by {
        assert(look(back, SpotView::Saved(n)) == (if restored.contains(n) {
            None
        } else {
            look(emptied, SpotView::Saved(n))
        }));
        assert(look(emptied, SpotView::Saved(n)) == look(broken, SpotView::Saved(n)));
        assert(look(broken, SpotView::Saved(n)) == look(prepared, SpotView::Saved(n)));
        assert(kept.contains(n) == restored.contains(n));
    }
    assert forall|n: Seq<char>| #[trigger] look(after, SpotView::Stored(n)) == (if kept.contains(
        n,
    ) {
        look(prepared, SpotView::Saved(n))
    } else {
        look(broken, SpotView::Stored(n))
    }) by {
        assert(look(after, SpotView::Stored(n)) == look(back, SpotView::Stored(n)));
        assert(look(back, SpotView::Stored(n)) == (if restored.contains(n) && look(
            emptied,
            SpotView::Saved(n),
        ) is Some {
            look(emptied, SpotView::Saved(n))
        } else {
            look(emptied, SpotView::Stored(n))
        }));
        assert(look(emptied, SpotView::Saved(n)) == look(broken, SpotView::Saved(n)));
        assert(look(broken, SpotView::Saved(n)) == look(prepared, SpotView::Saved(n)));
        assert(look(emptied, SpotView::Stored(n)) == (if kept.contains(n) {
            None
        } else {
            look(broken, SpotView::Stored(n))
        }));
        assert(kept.contains(n) == restored.contains(n));
    }
    assert(kept.contains(service));
}

/// Running steps in a row is running the first ones, then the others.
proof fn lemma_run_append<C>(files: Map<SpotView, C>, a: Seq<StepView>, b: Seq<StepView>)
    ensures
        after_steps(files, a + b) == after_steps(after_steps(files, a), b),
    decreases b.len(),
{
    if b.len() == 0 {
        assert(a + b =~= a);
    } else {
        lemma_run_append(files, a, b.drop_last());
        assert((a + b).drop_last() =~= a + b.drop_last());
    }
}

/// Putting names aside moves just them.
proof fn lemma_saves<C>(files: Map<SpotView, C>, names: Seq<Seq<char>>)
    requires
        names.no_duplicates(),
    ensures
        ({
            let out = after_steps(files, saves(names));
            &&& forall|n: Seq<char>| #[trigger]
                look(out, SpotView::Saved(n)) == (if names.contains(n) && look(
                    files,
                    SpotView::Stored(n),
                ) is Some {
                    look(files, SpotView::Stored(n))
                } else {
                    look(files, SpotView::Saved(n))
                })
            &&& forall|n: Seq<char>| #[trigger]
                look(out, SpotView::Stored(n)) == (if names.contains(n) {
                    None
                } else {
                    look(files, SpotView::Stored(n))
                })
            &&& look(out, SpotView::Unit) == look(files, SpotView::Unit)
        }),
    decreases names.len(),
{
    if names.len() > 0 {
        let rest = names.drop_last();
        lemma_saves(files, rest);
        lemma_last_name(names);
        assert(saves(names).drop_last() =~= saves(rest));
        let mid = after_steps(files, saves(rest));
        let last = names.last();
        assert(look(mid, SpotView::Stored(last)) == look(files, SpotView::Stored(last)));
        assert(look(mid, SpotView::Unit) == look(files, SpotView::Unit));
        assert forall|n: Seq<char>| #[trigger]
            look(after_steps(files, saves(names)), SpotView::Saved(n)) == (if names.contains(n)
            && look(files, SpotView::Stored(n)) is Some {
            look(files, SpotView::Stored(n))
        } else {
            look(files, SpotView::Saved(n))
        }) by {
            assert(names.contains(n) == (rest.contains(n) || n == last));
            assert(look(mid, SpotView::Saved(n)) == (if rest.contains(n) && look(
                files,
                SpotView::Stored(n),
            ) is Some {
                look(files, SpotView::Stored(n))
            } else {
                look(files, SpotView::Saved(n))
            }));
        }
        assert forall|n: Seq<char>| #[trigger]
            look(after_steps(files, saves(names)), SpotView::Stored(n)) == (if names.contains(n) {
            None
        } else {
            look(files, SpotView::Stored(n))
        }) by {
            assert(names.contains(n) == (rest.contains(n) || n == last));
            assert(look(mid, SpotView::Stored(n)) == (if rest.contains(n) {
                None
            } else {
                look(files, SpotView::Stored(n))
            }));
        }
    }
}

/// Bringing names back moves just them.
proof fn lemma_restores<C>(files: Map<SpotView, C>, names: Seq<Seq<char>>)
    requires
        names.no_duplicates(),
    ensures
        ({
            let out = after_steps(files, restores(names));
            &&& forall|n: Seq<char>| #[trigger]
                look(out, SpotView::Stored(n)) == (if names.contains(n) && look(
                    files,
                    SpotView::Saved(n),
                ) is Some {
                    look(files, SpotView::Saved(n))
                } else {
                    look(files, SpotView::Stored(n))
                })
            &&& forall|n: Seq<char>| #[trigger]
                look(out, SpotView::Saved(n)) == (if names.contains(n) {
                    None
                } else {
                    look(files, SpotView::Saved(n))
                })
        }),
    decreases names.len(),
{
    if names.len() > 0 {
        let rest = names.drop_last();
        lemma_restores(files, rest);
        lemma_last_name(names);
        assert(restores(names).drop_last() =~= restores(rest));
        let mid = after_steps(files, restores(rest));
        let last = names.last();
        assert(look(mid, SpotView::Saved(last)) == look(files, SpotView::Saved(last)));
        assert forall|n: Seq<char>| #[trigger]
            look(after_steps(files, restores(names)), SpotView::Stored(n)) == (if names.contains(n)
            && look(files, SpotView::Saved(n)) is Some {
            look(files, SpotView::Saved(n))
        } else {
            look(files, SpotView::Stored(n))
        }) by {
            assert(names.contains(n) == (rest.contains(n) || n == last));
            assert(look(mid, SpotView::Stored(n)) == (if rest.contains(n) && look(
                files,
                SpotView::Saved(n),
            ) is Some {
                look(files, SpotView::Saved(n))
            } else {
                look(files, SpotView::Stored(n))
            }));
        }
        assert forall|n: Seq<char>| #[trigger]
            look(after_steps(files, restores(names)), SpotView::Saved(n)) == (if names.contains(
            n,
        ) {
            None
        } else {
            look(files, SpotView::Saved(n))
        }) by {
            assert(names.contains(n) == (rest.contains(n) || n == last));
            assert(look(mid, SpotView::Saved(n)) == (if rest.contains(n) {
                None
            } else {
                look(files, SpotView::Saved(n))
            }));
        }
    }
}

/// Removing names removes just them.
proof fn lemma_removals<C>(files: Map<SpotView, C>, names: Seq<Seq<char>>)
    ensures
        ({
            let out = after_steps(files, removals(names));
            &&& forall|n: Seq<char>| #[trigger]
                look(out, SpotView::Stored(n)) == (if names.contains(n) {
                    None
                } else {
                    look(files, SpotView::Stored(n))
                })
            &&& forall|n: Seq<char>| #[trigger]
                look(out, SpotView::Saved(n)) == look(files, SpotView::Saved(n))
        }),
    decreases names.len(),
{
    if names.len() > 0 {
        let rest = names.drop_last();
        lemma_removals(files, rest);
        assert(removals(names).drop_last() =~= removals(rest));
        let mid = after_steps(files, removals(rest));
        assert forall|n: Seq<char>| #[trigger]
            look(after_steps(files, removals(names)), SpotView::Stored(n)) == (if names.contains(
            n,
        ) {
            None
        } else {
            look(files, SpotView::Stored(n))
        }) by {
            lemma_member(names, n);
            assert(look(mid, SpotView::Stored(n)) == (if rest.contains(n) {
                None
            } else {
                look(files, SpotView::Stored(n))
            }));
        }
        assert forall|n: Seq<char>| #[trigger]
            look(after_steps(files, removals(names)), SpotView::Saved(n)) == look(
            files,
            SpotView::Saved(n),
        ) by {
            assert(look(mid, SpotView::Saved(n)) == look(files, SpotView::Saved(n)));
        }
    }
}

/// A name of a list is its last one or one of the others.
proof fn lemma_member(names: Seq<Seq<char>>, n: Seq<char>)
    requires
        names.len() > 0,
    ensures
        names.contains(n) == (names.drop_last().contains(n) || n == names.last()),
{
    let rest = names.drop_last();
    if names.contains(n) {
        let k = choose|k: int| 0 <= k < names.len() && names[k] == n;
        if k < rest.len() {
            assert(rest[k] == n);
        }
    }
    if rest.contains(n) {
        let k = choose|k: int| 0 <= k < rest.len() && rest[k] == n;
        assert(names[k] == n);
    }
    assert(names[names.len() - 1] == names.last());
}

/// The last of different names is none of the others.
proof fn lemma_last_name(names: Seq<Seq<char>>)
    requires
        names.len() > 0,
        names.no_duplicates(),
    ensures
        names.drop_last().no_duplicates(),
        !names.drop_last().contains(names.last()),
        forall|n: Seq<char>| #[trigger]
            names.contains(n) == (names.drop_last().contains(n) || n == names.last()),
{
    let rest = names.drop_last();
    assert forall|n: Seq<char>| #[trigger] names.contains(n) == (rest.contains(n) || n
        == names.last()) by {
        lemma_member(names, n);
    }
}

/// The names that are kept differ: each ends in another letter.
proof fn lemma_names_differ(service: Seq<char>)
    requires
        ".service"@.is_suffix_of(service),
    ensures
        kept_names(service).no_duplicates(),
        restored_names(service).no_duplicates(),
{
    reveal_strlit("current");
    reveal_strlit("package.zip");
    reveal_strlit("kaonic-plugin.toml");
    reveal_strlit(".service");
    reveal_strlit(".sha256");
    reveal_strlit(".sig");
    reveal_strlit(".sign");
    assert(service.last() == 'e') by {
        let tail = ".service"@;
        assert(tail.last() == 'e');
        assert(service.last() == tail.last());
    }
    let kept = kept_names(service);
    let restored = restored_names(service);
    assert(kept[0].last() == 't');
    assert(kept[1].last() == 'p');
    assert(kept[2].last() == 'l');
    assert(kept[3].last() == 'e');
    assert(kept[4].last() == '6');
    assert(kept[5].last() == 'g');
    assert(kept[6].last() == 'n');
    assert(restored[3] == kept[5]);
    assert(restored[4] == kept[6]);
    assert(restored[5] == kept[3]);
    assert(restored[6] == kept[4]);
}

/// What is kept is what is brought back.
proof fn lemma_same_names(service: Seq<char>)
    ensures
        forall|n: Seq<char>|
            #![trigger kept_names(service).contains(n)]
            #![trigger restored_names(service).contains(n)]
            kept_names(service).contains(n) == restored_names(service).contains(n),
{
    let kept = kept_names(service);
    let restored = restored_names(service);
    assert forall|n: Seq<char>|
        #![trigger kept.contains(n)]
        #![trigger restored.contains(n)]
        kept.contains(n) == restored.contains(n) by {
        if kept.contains(n) {
            let k = choose|k: int| 0 <= k < kept.len() && kept[k] == n;
            let j = if k == 3 {
                5
            } else if k == 4 {
                6
            } else if k == 5 {
                3
            } else if k == 6 {
                4
            } else {
                k
            };
            assert(restored[j] == n);
        }
        if restored.contains(n) {
            let k = choose|k: int| 0 <= k < restored.len() && restored[k] == n;
            let j = if k == 5 {
                3
            } else if k == 6 {
                4
            } else if k == 3 {
                5
            } else if k == 4 {
                6
            } else {
                k
            };
            assert(kept[j] == n);
        }
    }
}

/// What is brought back when the update of the plugin with the unit
/// `name.service` fails: its files, its package, its manifest, its checksum and its
/// signature, each as it was.
pub proof fn failed_updates_bring_back_every_file<C>(
    before: Map<SpotView, C>,
    broken: Map<SpotView, C>,
    name: Seq<char>,
)
    requires
        name.len() > 0,
        !name.contains('/'),
        forall|n: Seq<char>| #[trigger]
            look(broken, SpotView::Saved(n)) == look(
                after_steps(before, prepare_plan(name + ".service"@)),
                SpotView::Saved(n),
            ),
    ensures
        ({
            let after = after_steps(broken, rollback_plan(name + ".service"@));
            &&& look(after, SpotView::Stored("current"@)) == look(
                before,
                SpotView::Stored("current"@),
            )
            &&& look(after, SpotView::Stored("package.zip"@)) == look(
                before,
                SpotView::Stored("package.zip"@),
            )
            &&& look(after, SpotView::Stored("kaonic-plugin.toml"@)) == look(
                before,
                SpotView::Stored("kaonic-plugin.toml"@),
            )
            &&& look(after, SpotView::Stored(name + ".sha256"@)) == look(
                before,
                SpotView::Stored(name + ".sha256"@),
            )
            &&& look(after, SpotView::Stored(name + ".sig"@)) == look(
                before,
                SpotView::Stored(name + ".sig"@),
            )
            &&& look(after, SpotView::Stored(name + ".sign"@)) == look(
                before,
                SpotView::Stored(name + ".sign"@),
            )
        }),
{
    let service = name + ".service"@;
    let kept = kept_names(service);
    lemma_unit_stem(name);
    failed_updates_are_undone(before, broken, service);
    lemma_names_differ(service);
    assert(kept[0] == "current"@);
    assert(kept[1] == "package.zip"@);
    assert(kept[2] == "kaonic-plugin.toml"@);
    assert(kept[3] == service);
    assert(kept[4] == name + ".sha256"@);
    assert(kept[5] == name + ".sig"@);
    assert(kept[6] == name + ".sign"@);
}

proof fn lemma_unit_stem(name: Seq<char>)
    requires
        name.len() > 0,
        !name.contains('/'),
    ensures
        base_name(name + ".service"@) == name,
        ".service"@.is_suffix_of(name + ".service"@),
{
    reveal_strlit(".service");
    reveal_strlit("service");
    reveal_strlit(".");
    assert(name + ".service"@ =~= name + "."@ + "service"@);
    names_fall_apart_at_their_last_dot(name, "service"@);
    assert((name + ".service"@).skip(name.len() as int) =~= ".service"@);
}

/// Before a plugin is updated, nothing of it is lost: each of its files, and its
/// unit, is put aside, and what was put aside earlier is gone.
pub proof fn updates_put_every_file_aside<C>(before: Map<SpotView, C>, name: Seq<char>)
    requires
        name.len() > 0,
        !name.contains('/'),
    ensures
        ({
            let aside = after_steps(before, prepare_plan(name + ".service"@));
            &&& look(aside, SpotView::Saved("current"@)) == look(
                before,
                SpotView::Stored("current"@),
            )
            &&& look(aside, SpotView::Saved("package.zip"@)) == look(
                before,
                SpotView::Stored("package.zip"@),
            )
            &&& look(aside, SpotView::Saved("kaonic-plugin.toml"@)) == look(
                before,
                SpotView::Stored("kaonic-plugin.toml"@),
            )
            &&& look(aside, SpotView::Unit) == look(before, SpotView::Unit)
            &&& look(before, SpotView::Unit) is Some ==> look(
                aside,
                SpotView::Saved(name + ".service"@),
            ) == look(before, SpotView::Unit)
            &&& look(aside, SpotView::Stored("current"@)) is None
            &&& look(aside, SpotView::Stored("package.zip"@)) is None
        }),
{
    let service = name + ".service"@;
    let kept = kept_names(service);
    lemma_unit_stem(name);
    lemma_names_differ(service);
    let cleared = after_step(before, StepView::Clear);
    let moved = after_steps(cleared, saves(kept));
    let copy = StepView::Copy(SpotView::Unit, SpotView::Saved(service));
    let head = seq![StepView::Clear];
    assert(head.drop_last() =~= Seq::<StepView>::empty());
    assert(after_steps(before, Seq::<StepView>::empty()) == before);
    lemma_run_append(before, head, saves(kept));
    assert(prepare_plan(service) =~= (head + saves(kept)).push(copy));
    assert(prepare_plan(service).drop_last() =~= head + saves(kept));
    lemma_saves(cleared, kept);
    assert(kept[0] == "current"@);
    assert(kept[1] == "package.zip"@);
    assert(kept[2] == "kaonic-plugin.toml"@);
    assert(kept[3] == service);
    let aside = after_step(moved, copy);
    assert forall|n: Seq<char>| #[trigger] look(aside, SpotView::Saved(n)) == (if n == service
        && look(before, SpotView::Unit) is Some {
        look(before, SpotView::Unit)
    } else {
        look(moved, SpotView::Saved(n))
    }) by {
        assert(look(cleared, SpotView::Unit) == look(before, SpotView::Unit));
    }
    assert(forall|n: Seq<char>| #[trigger]
        look(cleared, SpotView::Stored(n)) == look(before, SpotView::Stored(n)));
    assert(forall|n: Seq<char>| #[trigger] look(cleared, SpotView::Saved(n)) is None);
    assert(forall|n: Seq<char>| #[trigger]
        look(aside, SpotView::Stored(n)) == look(moved, SpotView::Stored(n)));
    assert(look(aside, SpotView::Unit) == look(moved, SpotView::Unit));
}

} // verus!
