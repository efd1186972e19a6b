use vstd::prelude::*;

use crate::adapter::{CauseRequest, CauseRequestModel};
use crate::app_event::{AppEvent, EventModel};
use crate::{CauseModel, DependencyCause, FilePath};

verus! {

/// The right panel showing the cause snippets for the chain link being
/// viewed; `source_file` is the anchor file whose dependents are browsed.
#[derive(Debug)]
pub struct DependencyCausePanel {
    pub source_file: Option<FilePath>,
}

/// Mathematical model of a [`DependencyCausePanel`].
#[verifier::ext_equal]
pub struct DependencyCausePanelModel {
    pub source_file: Option<Seq<char>>,
}

impl View for DependencyCausePanel {
    type V = DependencyCausePanelModel;

    open spec fn view(&self) -> DependencyCausePanelModel {
        DependencyCausePanelModel { source_file: self.source_file.deep_view() }
    }
}

impl DependencyCausePanel {
    pub fn new(source_file: Option<FilePath>) -> (res: Self)
        ensures
            res@.source_file == source_file.deep_view(),
    {
        DependencyCausePanel { source_file }
    }
}

impl Clone for DependencyCausePanel {
    fn clone(&self) -> (res: Self)
        ensures
            res@ == self@,
    {
        let source_file = match &self.source_file {
            Some(s) => Some(s.clone()),
            None => None,
        };
        let res = DependencyCausePanel { source_file };
        proof {
            assert(res@ =~= self@);
        }
        res
    }
}

/// Cause-lookup state: the causes fetched for the currently selected
/// dependent, and the sink of the chain link being viewed, if any.
#[derive(Debug)]
pub struct State {
    pub dependency_causes: Vec<DependencyCause>,
    pub viewing_recompile_dependency_file: Option<FilePath>,
}

/// Mathematical model of the cause-lookup [`State`].
#[verifier::ext_equal]
pub struct CausePanelModel {
    pub dependency_causes: Seq<CauseModel>,
    pub viewing_recompile_dependency_file: Option<Seq<char>>,
}

impl View for State {
    type V = CausePanelModel;

    open spec fn view(&self) -> CausePanelModel {
        CausePanelModel {
            dependency_causes: self.dependency_causes.deep_view(),
            viewing_recompile_dependency_file: self.viewing_recompile_dependency_file.deep_view(),
        }
    }
}

/// The state the cause panel starts from: nothing fetched, nothing viewed.
pub open spec fn spec_cause_panel_initial() -> CausePanelModel {
    CausePanelModel {
        dependency_causes: Seq::empty(),
        viewing_recompile_dependency_file: Option::None,
    }
}

impl State {
    pub fn new() -> (res: Self)
        ensures
            res@ == spec_cause_panel_initial(),
    {
        let res = State { dependency_causes: Vec::new(), viewing_recompile_dependency_file: None };
        proof {
            assert(res@ =~= spec_cause_panel_initial());
        }
        res
    }
}

/// How the cause panel reacts to one event. Selecting a dependent asks the
/// server for the causes behind it — source and sink deliberately reversed
/// relative to the listing, since the lookup is anchored at the browsed
/// file. A completed fetch replaces the cached causes; starting to view a
/// chain link marks its sink as displayed; stopping clears the marker but
/// keeps the cache; cancelling discards everything.
pub open spec fn spec_cause_panel_step(
    s: CausePanelModel,
    event: EventModel,
    source_file: Option<Seq<char>>,
) -> (CausePanelModel, Option<CauseRequestModel>) {
    match event {
        EventModel::SelectDependentFile(d) => (
            s,
            Option::Some(
                CauseRequestModel { source: d.path, sink: source_file->0, reason: d.reason },
            ),
        ),
        EventModel::GetDependencyCausesDone(cs) => (
            CausePanelModel { dependency_causes: cs, ..s },
            Option::None,
        ),
        EventModel::ViewDependentFile(l) => (
            CausePanelModel { viewing_recompile_dependency_file: Option::Some(l.sink), ..s },
            Option::None,
        ),
        EventModel::StopViewDependentFile(_) => (
            CausePanelModel { viewing_recompile_dependency_file: Option::None, ..s },
            Option::None,
        ),
        EventModel::Cancel => (spec_cause_panel_initial(), Option::None),
        _ => (s, Option::None),
    }
}

impl State {
    /// Reacts to one event; the returned request, if any, is to be issued
    /// to the analysis server by the caller.
    pub fn handle_event(&mut self, event: &AppEvent, widget: &DependencyCausePanel) -> (r: Option<
        CauseRequest,
    >)
        requires
            *event is SelectDependentFile ==> widget.source_file is Some,
        ensures
            final(self)@ == spec_cause_panel_step(old(self)@, event@, widget@.source_file).0,
            r.deep_view() == spec_cause_panel_step(old(self)@, event@, widget@.source_file).1,
    {
        match event {
            AppEvent::SelectDependentFile(recompile_dependency) => {
                let source = match &widget.source_file {
                    Some(source) => source.clone(),
                    None => unreached(),
                };
                Some(
                    CauseRequest {
                        source: recompile_dependency.path.clone(),
                        sink: source,
                        reason: recompile_dependency.reason,
                    },
                )
            },
            AppEvent::GetDependencyCausesDone(causes) => {
                let copy = causes.clone();
                proof {
                    assert forall|i: int| 0 <= i < copy@.len() implies copy@[i]@ == causes@[i]@ by {
                        assert(cloned::<DependencyCause>(causes[i], copy[i]));
                    }
                    assert(copy.deep_view() =~= causes.deep_view());
                }
                self.dependency_causes = copy;
                proof {
                    assert(self@ =~= spec_cause_panel_step(
                        old(self)@,
                        event@,
                        widget@.source_file,
                    ).0);
                }
                None
            },
            AppEvent::ViewDependentFile(dependency_link) => {
                self.viewing_recompile_dependency_file = Some(dependency_link.sink.clone());
                proof {
                    assert(self@ =~= spec_cause_panel_step(
                        old(self)@,
                        event@,
                        widget@.source_file,
                    ).0);
                }
                None
            },
            AppEvent::StopViewDependentFile(_) => {
                self.viewing_recompile_dependency_file = None;
                proof {
                    assert(self@ =~= spec_cause_panel_step(
                        old(self)@,
                        event@,
                        widget@.source_file,
                    ).0);
                }
                None
            },
            AppEvent::Cancel => {
                *self = State::new();
                None
            },
            _ => None,
        }
    }
}

} // verus!
