use vstd::prelude::*;

use crate::adapter::{CauseRequest, CauseRequestModel};
use crate::app_event::{AppEvent, EventModel};
use crate::app_state::{spec_global_step, AppModel, AppState, StateMachine};
use crate::components::dependency_cause_panel::{
    spec_cause_panel_step, DependencyCausePanel, DependencyCausePanelModel,
};
use crate::components::file_dependent_panel::{
    nav_down_ok, nav_up_ok, nav_wf, spec_nav_step, FileDependentPanel, FileDependentPanelModel,
};
use crate::components::file_panel::{spec_file_panel_step, FilePanel, FilePanelModel};
use crate::components::search_input::SearchModel;
use crate::utils::{filter_files_list, spec_filter_indices, string_of, PathKeyed};
use crate::wire::{push_dec, push_lit, spec_dec};
use crate::{FileEntry, FileEntryModel, RecomplileDependency, RecomplileDependencyModel};

verus! {

/// One dispatch round, spec-side: the event is offered to the panel of
/// the active view, then to the cause panel, then to the top-level state
/// machine, each reacting as its own transition function says; the
/// follow-up events come from the navigator, the request from the cause
/// panel.
pub open spec fn spec_dispatch(
    a: AppModel,
    event: EventModel,
    file_panel: FilePanelModel,
    file_dependent_panel: Option<FileDependentPanelModel>,
    dependency_cause_panel: DependencyCausePanelModel,
) -> (AppModel, Seq<EventModel>, Option<CauseRequestModel>) {
    let fp = if a.global.state_machine is FilePanelView {
        spec_file_panel_step(a.file_panel, event, file_panel.files)
    } else {
        a.file_panel
    };
    let nav_step = if a.global.state_machine is FileDependentsView {
        spec_nav_step(a.file_dependent_panel, file_dependent_panel->0.files, event)
    } else {
        (a.file_dependent_panel, Seq::<EventModel>::empty())
    };
    let cause_step = spec_cause_panel_step(
        a.dependency_cause_panel,
        event,
        dependency_cause_panel.source_file,
    );
    let g = spec_global_step(a.global, event);
    (
        AppModel {
            file_panel: fp,
            file_dependent_panel: nav_step.0,
            dependency_cause_panel: cause_step.0,
            global: g,
        },
        nav_step.1,
        cause_step.1,
    )
}

/// What dispatching an event safely needs of the current state.
pub open spec fn spec_dispatch_ok(
    a: AppModel,
    event: EventModel,
    file_dependent_panel: Option<FileDependentPanelModel>,
    dependency_cause_panel: DependencyCausePanelModel,
) -> bool {
    &&& a.global.state_machine is FileDependentsView ==> file_dependent_panel is Some && nav_wf(
        a.file_dependent_panel,
        file_dependent_panel->0.files,
    )
    &&& (a.global.state_machine is FileDependentsView && event is DownButtonPressed)
        ==> nav_down_ok(a.file_dependent_panel, file_dependent_panel->0.files)
    &&& (a.global.state_machine is FileDependentsView && event is UpButtonPressed) ==> nav_up_ok(
        a.file_dependent_panel,
        file_dependent_panel->0.files,
    )
    &&& event is SelectDependentFile ==> dependency_cause_panel.source_file is Some
}

/// Offers one event to the panel of the active view, the cause panel and
/// the top-level state machine, in that fixed order; hands back the
/// follow-up events and the server request, if any.
pub fn dispatch_event(
    app_state: &mut AppState,
    event: &AppEvent,
    file_panel: &FilePanel,
    file_dependent_panel: &Option<FileDependentPanel>,
    dependency_cause_panel: &DependencyCausePanel,
) -> (r: (Vec<AppEvent>, Option<CauseRequest>))
    requires
        spec_dispatch_ok(
            old(app_state)@,
            event@,
            file_dependent_panel.deep_view(),
            dependency_cause_panel@,
        ),
    ensures
        final(app_state)@ == spec_dispatch(
            old(app_state)@,
            event@,
            file_panel@,
            file_dependent_panel.deep_view(),
            dependency_cause_panel@,
        ).0,
        r.0.deep_view() == spec_dispatch(
            old(app_state)@,
            event@,
            file_panel@,
            file_dependent_panel.deep_view(),
            dependency_cause_panel@,
        ).1,
        r.1.deep_view() == spec_dispatch(
            old(app_state)@,
            event@,
            file_panel@,
            file_dependent_panel.deep_view(),
            dependency_cause_panel@,
        ).2,
        old(app_state)@.global.state_machine is FileDependentsView ==> nav_wf(
            final(app_state)@.file_dependent_panel,
            file_dependent_panel.deep_view()->0.files,
        ),
{
    let events: Vec<AppEvent> = match app_state.global.state_machine {
        StateMachine::FilePanelView => {
            app_state.file_panel.handle_event(event, file_panel);
            let empty: Vec<AppEvent> = Vec::new();
            proof {
                assert(empty.deep_view() =~= Seq::<EventModel>::empty());
            }
            empty
        },
        StateMachine::FileDependentsView => {
            let widget = match file_dependent_panel {
                Some(widget) => widget,
                None => unreached(),
            };
            app_state.file_dependent_panel.handle_event(event, widget)
        },
    };
    let request = app_state.dependency_cause_panel.handle_event(event, dependency_cause_panel);
    app_state.handle_event(event);
    proof {
        assert(app_state@ =~= spec_dispatch(
            old(app_state)@,
            event@,
            file_panel@,
            file_dependent_panel.deep_view(),
            dependency_cause_panel@,
        ).0);
    }
    (events, request)
}

/// A request option as the request sequence it contributes.
pub open spec fn opt_req_seq(r: Option<CauseRequestModel>) -> Seq<CauseRequestModel> {
    match r {
        Option::Some(q) => seq![q],
        Option::None => Seq::empty(),
    }
}

/// Dispatching a queue of follow-up events in order, collecting the
/// server requests. Follow-ups are chain-view events and produce no
/// further events, so no deeper queue is needed.
pub open spec fn spec_dispatch_follow_ups(
    a: AppModel,
    evs: Seq<EventModel>,
    file_panel: FilePanelModel,
    file_dependent_panel: Option<FileDependentPanelModel>,
    dependency_cause_panel: DependencyCausePanelModel,
) -> (AppModel, Seq<CauseRequestModel>)
    decreases evs.len(),
{
    if evs.len() == 0 {
        (a, Seq::empty())
    } else {
        let step = spec_dispatch(a, evs[0], file_panel, file_dependent_panel, dependency_cause_panel);
        let rest = spec_dispatch_follow_ups(
            step.0,
            evs.skip(1),
            file_panel,
            file_dependent_panel,
            dependency_cause_panel,
        );
        (rest.0, opt_req_seq(step.2) + rest.1)
    }
}

/// Processing one externally sourced event to completion: dispatch it,
/// then dispatch each follow-up it produced, in order, before the next
/// external event is accepted — one user-visible action is one atomic
/// step.
pub open spec fn spec_process_event(
    a: AppModel,
    event: EventModel,
    file_panel: FilePanelModel,
    file_dependent_panel: Option<FileDependentPanelModel>,
    dependency_cause_panel: DependencyCausePanelModel,
) -> (AppModel, Seq<CauseRequestModel>) {
    let step = spec_dispatch(a, event, file_panel, file_dependent_panel, dependency_cause_panel);
    let folded = spec_dispatch_follow_ups(
        step.0,
        step.1,
        file_panel,
        file_dependent_panel,
        dependency_cause_panel,
    );
    (folded.0, opt_req_seq(step.2) + folded.1)
}

/// The navigator only ever emits chain-view events.
proof fn lemma_nav_events_kinds(
    nav: crate::components::file_dependent_panel::NavModel,
    files: Seq<RecomplileDependencyModel>,
    e: EventModel,
)
    ensures
        forall|k: int|
            0 <= k < spec_nav_step(nav, files, e).1.len() ==> ((#[trigger] spec_nav_step(
                nav,
                files,
                e,
            ).1[k]) is ViewDependentFile || spec_nav_step(nav, files, e).1[k]
                is StopViewDependentFile),
{
}

/// Processes one externally sourced event and every follow-up it
/// produces, in order; returns the server requests to issue, in order.
pub fn process_event(
    app_state: &mut AppState,
    event: &AppEvent,
    file_panel: &FilePanel,
    file_dependent_panel: &Option<FileDependentPanel>,
    dependency_cause_panel: &DependencyCausePanel,
) -> (requests: Vec<CauseRequest>)
    requires
        spec_dispatch_ok(
            old(app_state)@,
            event@,
            file_dependent_panel.deep_view(),
            dependency_cause_panel@,
        ),
    ensures
        final(app_state)@ == spec_process_event(
            old(app_state)@,
            event@,
            file_panel@,
            file_dependent_panel.deep_view(),
            dependency_cause_panel@,
        ).0,
        requests.deep_view() == spec_process_event(
            old(app_state)@,
            event@,
            file_panel@,
            file_dependent_panel.deep_view(),
            dependency_cause_panel@,
        ).1,
{
    let ghost fpm = file_panel@;
    let ghost fdpm = file_dependent_panel.deep_view();
    let ghost dcpm = dependency_cause_panel@;
    let ghost target = spec_process_event(old(app_state)@, event@, fpm, fdpm, dcpm);
    let (events, req) = dispatch_event(
        app_state,
        event,
        file_panel,
        file_dependent_panel,
        dependency_cause_panel,
    );
    proof {
        lemma_nav_events_kinds(
            old(app_state)@.file_dependent_panel,
            fdpm->0.files,
            event@,
        );
    }
    let mut requests: Vec<CauseRequest> = Vec::new();
    match req {
        Some(q) => {
            requests.push(q);
        },
        None => {},
    }
    let ghost evs = events.deep_view();
    let mut i: usize = 0;
    proof {
        assert(evs.skip(0) =~= evs);
        let rem = spec_dispatch_follow_ups(app_state@, evs, fpm, fdpm, dcpm);
        assert(target.1 =~= requests.deep_view() + rem.1);
    }
    while i < events.len()
        invariant
            i <= events.len(),
            evs == events.deep_view(),
            fpm == file_panel@,
            fdpm == file_dependent_panel.deep_view(),
            dcpm == dependency_cause_panel@,
            forall|k: int|
                0 <= k < evs.len() ==> ((#[trigger] evs[k]) is ViewDependentFile || evs[k]
                    is StopViewDependentFile),
            (app_state@.global.state_machine is FileDependentsView && i < events.len()) ==> fdpm
                is Some && nav_wf(app_state@.file_dependent_panel, fdpm->0.files),
            ({
                let rem = spec_dispatch_follow_ups(
                    app_state@,
                    evs.skip(i as int),
                    fpm,
                    fdpm,
                    dcpm,
                );
                target.0 == rem.0 && target.1 == requests.deep_view() + rem.1
            }),
        decreases events.len() - i,
    {
        let ev = &events[i];
        proof {
            assert(ev@ == evs[i as int]);
            assert(evs.skip(i as int)[0] == evs[i as int]);
            assert(evs.skip(i as int).skip(1) =~= evs.skip(i as int + 1));
        }
        let ghost before = app_state@;
        let (follow, req2) = dispatch_event(
            app_state,
            ev,
            file_panel,
            file_dependent_panel,
            dependency_cause_panel,
        );
        let ghost reqs_before = requests.deep_view();
        match req2 {
            Some(q) => {
                requests.push(q);
            },
            None => {},
        }
        i = i + 1;
        proof {
            let step = spec_dispatch(before, evs[i as int - 1], fpm, fdpm, dcpm);
            assert(requests.deep_view() =~= reqs_before + opt_req_seq(step.2));
            let rem = spec_dispatch_follow_ups(app_state@, evs.skip(i as int), fpm, fdpm, dcpm);
            assert(reqs_before + (opt_req_seq(step.2) + rem.1) =~= requests.deep_view() + rem.1);
        }
    }
    proof {
        assert(evs.skip(events@.len() as int).len() == 0);
        let rem = spec_dispatch_follow_ups(app_state@, evs.skip(i as int), fpm, fdpm, dcpm);
        assert(requests.deep_view() + rem.1 =~= requests.deep_view());
    }
    requests
}

/// The models of a listing after filtering by a search state.
pub open spec fn spec_filtered_entries(
    models: Seq<FileEntryModel>,
    search: SearchModel,
) -> Seq<FileEntryModel> {
    spec_filter_indices(models.map_values(|m: FileEntryModel| m.path), search).map_values(
        |i: int| models[i],
    )
}

/// The models of a dependents listing after filtering by a search state.
pub open spec fn spec_filtered_dependencies(
    models: Seq<RecomplileDependencyModel>,
    search: SearchModel,
) -> Seq<RecomplileDependencyModel> {
    spec_filter_indices(models.map_values(|m: RecomplileDependencyModel| m.path), search)
        .map_values(|i: int| models[i])
}

/// The panel title shown beside a committed search: the filtered count of
/// the total.
pub open spec fn spec_counts_title(filtered: int, total: int) -> Seq<char> {
    seq![' ', '('] + spec_dec(filtered as nat) + " of "@ + spec_dec(total as nat) + seq![')']
}

fn counts_title(filtered: usize, total: usize) -> (r: String)
    ensures
        r@ == spec_counts_title(filtered as int, total as int),
{
    let mut out: Vec<char> = Vec::new();
    out.push(' ');
    out.push('(');
    push_dec(&mut out, filtered as u64);
    push_lit(&mut out, " of ");
    push_dec(&mut out, total as u64);
    out.push(')');
    proof {
        assert(out@ =~= spec_counts_title(filtered as int, total as int));
    }
    string_of(&out)
}

/// The file listing as the file panel shows it: filtered by the file
/// search once a query is committed, with a count title while searching;
/// nothing while the listing has not arrived yet.
pub fn get_files_list(app_state: &AppState) -> (r: (Option<Vec<FileEntry>>, Option<String>))
    ensures
        ({
            let g = app_state.global@;
            &&& match g.files_list {
                Option::Some(models) => (r.0 matches Some(fl) && fl.deep_view()
                    == spec_filtered_entries(models, g.file_panel_search)),
                Option::None => r.0 is None,
            }
            &&& if g.file_panel_search is Search {
                let total = match g.files_list {
                    Option::Some(models) => models.len() as int,
                    Option::None => 0,
                };
                let shown = match g.files_list {
                    Option::Some(models) => spec_filtered_entries(
                        models,
                        g.file_panel_search,
                    ).len() as int,
                    Option::None => 0,
                };
                (r.1 matches Some(t) && t@ == spec_counts_title(shown, total))
            } else {
                r.1 is None
            }
        }),
{
    let filtered: Option<Vec<FileEntry>> = match &app_state.global.files_list {
        Some(files) => {
            let fl = filter_files_list(files, &app_state.global.file_panel_search);
            proof {
                let models = app_state.global@.files_list->0;
                let paths = files@.map_values(|t: FileEntry| t.path_spec());
                assert(paths =~= models.map_values(|m: FileEntryModel| m.path));
                let idxs = spec_filter_indices(paths, app_state.global@.file_panel_search);
                assert(fl.deep_view() =~= spec_filtered_entries(
                    models,
                    app_state.global@.file_panel_search,
                ));
            }
            Some(fl)
        },
        None => None,
    };
    let total = match &app_state.global.files_list {
        Some(files) => files.len(),
        None => 0,
    };
    let shown = match &filtered {
        Some(fl) => fl.len(),
        None => 0,
    };
    let title = if app_state.global.file_panel_search.is_searching() {
        Some(counts_title(shown, total))
    } else {
        None
    };
    (filtered, title)
}

/// The dependents listing as the dependents panel shows it: the anchor's
/// dependents filtered by the dependents search, with a count title while
/// searching.
pub fn get_dependent_files_list(app_state: &AppState, file_entry: &FileEntry) -> (r: (
    Vec<RecomplileDependency>,
    Option<String>,
))
    ensures
        ({
            let g = app_state.global@;
            let models = file_entry@.recompile_dependencies;
            &&& r.0.deep_view() == spec_filtered_dependencies(
                models,
                g.file_dependent_panel_search,
            )
            &&& if g.file_dependent_panel_search is Search {
                (r.1 matches Some(t) && t@ == spec_counts_title(
                    spec_filtered_dependencies(models, g.file_dependent_panel_search).len() as int,
                    models.len() as int,
                ))
            } else {
                r.1 is None
            }
        }),
{
    let filtered = filter_files_list(
        &file_entry.recompile_dependencies,
        &app_state.global.file_dependent_panel_search,
    );
    proof {
        let models = file_entry@.recompile_dependencies;
        let paths = file_entry.recompile_dependencies@.map_values(
            |t: RecomplileDependency| t.path_spec(),
        );
        assert(paths =~= models.map_values(|m: RecomplileDependencyModel| m.path));
        assert(filtered.deep_view() =~= spec_filtered_dependencies(
            models,
            app_state.global@.file_dependent_panel_search,
        ));
    }
    let title = if app_state.global.file_dependent_panel_search.is_searching() {
        Some(counts_title(filtered.len(), file_entry.recompile_dependencies.len()))
    } else {
        None
    };
    (filtered, title)
}

} // verus!
