use vstd::prelude::*;
use crate::error::PackError;

verus! {

/// Where a packaging run stands. The stages follow one another strictly;
/// only the translations step is optional.
pub enum Stage {
    Init,
    StagingCreated,
    FilesCopied,
    TranslationsConverted,
    ManifestPatched,
    Archived,
    CleanedUp,
    Failed(PackError),
}

/// The one piece of outside work that takes a run to its next stage.
#[derive(Clone, Copy, Debug, PartialEq, Eq)]
pub enum Action {
    CreateStaging,
    CopyFiles,
    ConvertTranslations,
    PatchManifest,
    WriteArchive,
    RemoveStaging,
    Stop,
}

/// The stage a successful step leads to.
pub open spec fn successor(stage: Stage, has_translations: bool) -> Stage {
    match stage {
        Stage::Init => Stage::StagingCreated,
        Stage::StagingCreated => Stage::FilesCopied,
        Stage::FilesCopied => if has_translations { Stage::TranslationsConverted } else { Stage::ManifestPatched },
        Stage::TranslationsConverted => Stage::ManifestPatched,
        Stage::ManifestPatched => Stage::Archived,
        Stage::Archived => Stage::CleanedUp,
        Stage::CleanedUp => Stage::CleanedUp,
        Stage::Failed(e) => Stage::Failed(e),
    }
}

/// The work that each stage calls for.
pub open spec fn action_of(stage: Stage, has_translations: bool) -> Action {
    match stage {
        Stage::Init => Action::CreateStaging,
        Stage::StagingCreated => Action::CopyFiles,
        Stage::FilesCopied => if has_translations { Action::ConvertTranslations } else { Action::PatchManifest },
        Stage::TranslationsConverted => Action::PatchManifest,
        Stage::ManifestPatched => Action::WriteArchive,
        Stage::Archived => Action::RemoveStaging,
        Stage::CleanedUp => Action::Stop,
        Stage::Failed(_) => Action::Stop,
    }
}

pub open spec fn is_terminal(stage: Stage) -> bool {
    stage is CleanedUp || stage is Failed
}

/// What to do next from `stage`.
pub fn next_action(stage: &Stage, has_translations: bool) -> (r: Action)
    ensures
        r == action_of(*stage, has_translations),
{
    match stage {
        Stage::Init => Action::CreateStaging,
        Stage::StagingCreated => Action::CopyFiles,
        Stage::FilesCopied => if has_translations { Action::ConvertTranslations } else { Action::PatchManifest },
        Stage::TranslationsConverted => Action::PatchManifest,
        Stage::ManifestPatched => Action::WriteArchive,
        Stage::Archived => Action::RemoveStaging,
        Stage::CleanedUp => Action::Stop,
        Stage::Failed(_) => Action::Stop,
    }
}

/// The stage after the work of `stage` ended with `outcome`: its successor on
/// success, `Failed` with the error on failure. A finished or failed run stays
/// as it is; in particular a failure is never followed by cleanup.
pub fn advance(stage: Stage, has_translations: bool, outcome: Result<(), PackError>) -> (r: Stage)
    ensures
        is_terminal(stage) ==> r == stage,
        !is_terminal(stage) && outcome.is_ok() ==> r == successor(stage, has_translations),
        !is_terminal(stage) && outcome.is_err() ==> r == Stage::Failed(outcome->Err_0),
{
    match stage {
        Stage::CleanedUp => Stage::CleanedUp,
        Stage::Failed(e) => Stage::Failed(e),
        other => match outcome {
            Err(e) => Stage::Failed(e),
            Ok(()) => match other {
                Stage::Init => Stage::StagingCreated,
                Stage::StagingCreated => Stage::FilesCopied,
                Stage::FilesCopied => if has_translations { Stage::TranslationsConverted } else { Stage::ManifestPatched },
                Stage::TranslationsConverted => Stage::ManifestPatched,
                Stage::ManifestPatched => Stage::Archived,
                _ => Stage::CleanedUp,
            },
        },
    }
}

/// The stage a run reaches from `stage` when its steps end with `outcomes`, in turn.
pub open spec fn run(stage: Stage, has_translations: bool, outcomes: Seq<Result<(), PackError>>) -> Stage
    decreases outcomes.len(),
{
    if outcomes.len() == 0 {
        stage
    } else {
        let next = if is_terminal(stage) {
            stage
        } else if outcomes[0].is_ok() {
            successor(stage, has_translations)
        } else {
            Stage::Failed(outcomes[0]->Err_0)
        };
        run(next, has_translations, outcomes.drop_first())
    }
}

/// Once a step fails, the run stays failed with that error and asks for no
/// further work: no archive is written and the staging tree is not removed.
pub proof fn lemma_failure_is_final(e: PackError, has_translations: bool, outcomes: Seq<Result<(), PackError>>)
    ensures
        run(Stage::Failed(e), has_translations, outcomes) == Stage::Failed(e),
        action_of(run(Stage::Failed(e), has_translations, outcomes), has_translations) == Action::Stop,
    decreases outcomes.len(),
{
    if outcomes.len() > 0 {
        lemma_failure_is_final(e, has_translations, outcomes.drop_first());
    }
}

/// A run whose steps all succeed creates the staging tree, copies, converts
/// the translations when there are any, patches, archives and cleans up, in
/// that order, and ends cleaned up.
pub proof fn lemma_successful_run(has_translations: bool)
    ensures
        has_translations ==> run(Stage::Init, true, Seq::new(6, |i: int| Ok::<(), PackError>(()))) == Stage::CleanedUp,
        !has_translations ==> run(Stage::Init, false, Seq::new(5, |i: int| Ok::<(), PackError>(()))) == Stage::CleanedUp,
{
    let ok = |i: int| Ok::<(), PackError>(());
    reveal_with_fuel(run, 7);
    assert(Seq::new(6, ok).drop_first() =~= Seq::new(5, ok));
    assert(Seq::new(5, ok).drop_first() =~= Seq::new(4, ok));
    assert(Seq::new(4, ok).drop_first() =~= Seq::new(3, ok));
    assert(Seq::new(3, ok).drop_first() =~= Seq::new(2, ok));
    assert(Seq::new(2, ok).drop_first() =~= Seq::new(1, ok));
    assert(Seq::new(1, ok).drop_first() =~= Seq::new(0, ok));
}

} // verus!
