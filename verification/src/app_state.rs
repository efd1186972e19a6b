use vstd::prelude::*;

use crate::app_event::{AppEvent, EventModel, KeyInput};
use crate::components::search_input::{
    spec_cancel, spec_prompt_add, spec_prompt_begin, spec_prompt_remove, spec_search, SearchModel,
};
use crate::components::{dependency_cause_panel, file_dependent_panel, file_panel, search_input};
use crate::{FileEntry, FileEntryModel};

verus! {

/// The top-level view the application is in: the file list, or the list of
/// one file's dependents.
#[derive(Clone, Copy, Debug, PartialEq, Eq, Structural)]
pub enum StateMachine {
    FilePanelView,
    FileDependentsView,
}

/// State shared across panels: the active view, the navigation anchor, one
/// search state per view, and the fetched file listing.
#[derive(Debug)]
pub struct GlobalState {
    pub state_machine: StateMachine,
    pub selected_dependency_source: Option<FileEntry>,
    pub file_panel_search: search_input::State,
    pub file_dependent_panel_search: search_input::State,
    pub files_list: Option<Vec<FileEntry>>,
}

/// Mathematical model of the [`GlobalState`].
#[verifier::ext_equal]
pub struct GlobalModel {
    pub state_machine: StateMachine,
    pub selected_dependency_source: Option<FileEntryModel>,
    pub file_panel_search: SearchModel,
    pub file_dependent_panel_search: SearchModel,
    pub files_list: Option<Seq<FileEntryModel>>,
}

impl View for GlobalState {
    type V = GlobalModel;

    open spec fn view(&self) -> GlobalModel {
        GlobalModel {
            state_machine: self.state_machine,
            selected_dependency_source: self.selected_dependency_source.deep_view(),
            file_panel_search: self.file_panel_search@,
            file_dependent_panel_search: self.file_dependent_panel_search@,
            files_list: self.files_list.deep_view(),
        }
    }
}

/// All component state the application owns.
#[derive(Debug)]
pub struct AppState {
    pub file_panel: file_panel::State,
    pub file_dependent_panel: file_dependent_panel::State,
    pub dependency_cause_panel: dependency_cause_panel::State,
    pub global: GlobalState,
}

/// Mathematical model of the whole [`AppState`].
#[verifier::ext_equal]
pub struct AppModel {
    pub file_panel: int,
    pub file_dependent_panel: file_dependent_panel::NavModel,
    pub dependency_cause_panel: dependency_cause_panel::CausePanelModel,
    pub global: GlobalModel,
}

impl View for AppState {
    type V = AppModel;

    open spec fn view(&self) -> AppModel {
        AppModel {
            file_panel: self.file_panel.selected_file_index as int,
            file_dependent_panel: self.file_dependent_panel@,
            dependency_cause_panel: self.dependency_cause_panel@,
            global: self.global@,
        }
    }
}

/// The global state the application starts in: file list view, no anchor,
/// both searches idle, no listing fetched yet.
pub open spec fn spec_global_initial() -> GlobalModel {
    GlobalModel {
        state_machine: StateMachine::FilePanelView,
        selected_dependency_source: Option::None,
        file_panel_search: SearchModel::Idle,
        file_dependent_panel_search: SearchModel::Idle,
        files_list: Option::None,
    }
}

impl AppState {
    pub fn new() -> (res: Self)
        ensures
            res.global@ == spec_global_initial(),
            res.file_panel.selected_file_index == 0,
            res.file_dependent_panel@ == file_dependent_panel::spec_nav_initial(),
            res.dependency_cause_panel@ == dependency_cause_panel::spec_cause_panel_initial(),
    {
        let res = AppState {
            file_panel: file_panel::State::new(),
            file_dependent_panel: file_dependent_panel::State::new(),
            dependency_cause_panel: dependency_cause_panel::State::new(),
            global: GlobalState {
                state_machine: StateMachine::FilePanelView,
                selected_dependency_source: None,
                file_panel_search: search_input::State::default(),
                file_dependent_panel_search: search_input::State::default(),
                files_list: None,
            },
        };
        proof {
            assert(res.global@ =~= spec_global_initial());
        }
        res
    }
}

/// How the global state reacts to one event. Selecting a file switches to
/// the dependents view and anchors it there; a finished listing fetch
/// replaces the file list; search events go to the search state of the
/// active view only; cancel aborts a prompt of the active view first, then
/// clears a committed dependents search, then pops the dependents view and
/// its anchor, and otherwise does nothing.
pub open spec fn spec_global_step(g: GlobalModel, event: EventModel) -> GlobalModel {
    match event {
        EventModel::SelectFile(f) => GlobalModel {
            state_machine: StateMachine::FileDependentsView,
            selected_dependency_source: Option::Some(f),
            ..g
        },
        EventModel::GetFilesDone(fs) => GlobalModel { files_list: Option::Some(fs), ..g },
        EventModel::EnterSearch => match g.state_machine {
            StateMachine::FilePanelView => GlobalModel {
                file_panel_search: spec_prompt_begin(g.file_panel_search),
                ..g
            },
            StateMachine::FileDependentsView => GlobalModel {
                file_dependent_panel_search: spec_prompt_begin(g.file_dependent_panel_search),
                ..g
            },
        },
        EventModel::SearchInput(c) => match g.state_machine {
            StateMachine::FilePanelView => GlobalModel {
                file_panel_search: spec_prompt_add(g.file_panel_search, c),
                ..g
            },
            StateMachine::FileDependentsView => GlobalModel {
                file_dependent_panel_search: spec_prompt_add(g.file_dependent_panel_search, c),
                ..g
            },
        },
        EventModel::SearchInputDelete => match g.state_machine {
            StateMachine::FilePanelView => GlobalModel {
                file_panel_search: spec_prompt_remove(g.file_panel_search),
                ..g
            },
            StateMachine::FileDependentsView => GlobalModel {
                file_dependent_panel_search: spec_prompt_remove(g.file_dependent_panel_search),
                ..g
            },
        },
        EventModel::SubmitSearch => match g.state_machine {
            StateMachine::FilePanelView => GlobalModel {
                file_panel_search: spec_search(g.file_panel_search),
                ..g
            },
            StateMachine::FileDependentsView => GlobalModel {
                file_dependent_panel_search: spec_search(g.file_dependent_panel_search),
                ..g
            },
        },
        EventModel::Cancel => match g.state_machine {
            StateMachine::FilePanelView => {
                if !(g.file_panel_search is Idle) {
                    GlobalModel { file_panel_search: spec_cancel(g.file_panel_search), ..g }
                } else {
                    g
                }
            },
            StateMachine::FileDependentsView => {
                if !(g.file_dependent_panel_search is Idle) {
                    GlobalModel {
                        file_dependent_panel_search: spec_cancel(g.file_dependent_panel_search),
                        ..g
                    }
                } else {
                    GlobalModel {
                        state_machine: StateMachine::FilePanelView,
                        selected_dependency_source: Option::None,
                        ..g
                    }
                }
            },
        },
        _ => g,
    }
}

impl AppState {
    /// Applies one event to the global state; panel-local state is
    /// untouched here and handled by the panels themselves.
    pub fn handle_event(&mut self, event: &AppEvent)
        ensures
            final(self).global@ == spec_global_step(old(self).global@, event@),
            final(self).file_panel == old(self).file_panel,
            final(self).file_dependent_panel == old(self).file_dependent_panel,
            final(self).dependency_cause_panel == old(self).dependency_cause_panel,
    {
        match event {
            AppEvent::SelectFile(file_entry) => {
                self.global.state_machine = StateMachine::FileDependentsView;
                self.global.selected_dependency_source = Some(file_entry.clone());
                proof {
                    assert(self.global@ =~= spec_global_step(old(self).global@, event@));
                }
            },
            AppEvent::GetFilesDone(files) => {
                let copy = files.clone();
                proof {
                    assert forall|i: int| 0 <= i < copy@.len() implies copy@[i]@ == files@[i]@ by {
                        assert(cloned::<FileEntry>(files[i], copy[i]));
                    }
                    assert(copy.deep_view() =~= files.deep_view());
                }
                self.global.files_list = Some(copy);
                proof {
                    assert(self.global@ =~= spec_global_step(old(self).global@, event@));
                }
            },
            AppEvent::EnterSearch => match self.global.state_machine {
                StateMachine::FilePanelView => {
                    self.global.file_panel_search.prompt_begin();
                    proof {
                        assert(self.global@ =~= spec_global_step(old(self).global@, event@));
                    }
                },
                StateMachine::FileDependentsView => {
                    self.global.file_dependent_panel_search.prompt_begin();
                    proof {
                        assert(self.global@ =~= spec_global_step(old(self).global@, event@));
                    }
                },
            },
            AppEvent::SearchInput(c) => match self.global.state_machine {
                StateMachine::FilePanelView => {
                    self.global.file_panel_search.prompt_add(*c);
                    proof {
                        assert(self.global@ =~= spec_global_step(old(self).global@, event@));
                    }
                },
                StateMachine::FileDependentsView => {
                    self.global.file_dependent_panel_search.prompt_add(*c);
                    proof {
                        assert(self.global@ =~= spec_global_step(old(self).global@, event@));
                    }
                },
            },
            AppEvent::SearchInputDelete => match self.global.state_machine {
                StateMachine::FilePanelView => {
                    self.global.file_panel_search.prompt_remove();
                    proof {
                        assert(self.global@ =~= spec_global_step(old(self).global@, event@));
                    }
                },
                StateMachine::FileDependentsView => {
                    self.global.file_dependent_panel_search.prompt_remove();
                    proof {
                        assert(self.global@ =~= spec_global_step(old(self).global@, event@));
                    }
                },
            },
            AppEvent::SubmitSearch => match self.global.state_machine {
                StateMachine::FilePanelView => {
                    self.global.file_panel_search.search();
                    proof {
                        assert(self.global@ =~= spec_global_step(old(self).global@, event@));
                    }
                },
                StateMachine::FileDependentsView => {
                    self.global.file_dependent_panel_search.search();
                    proof {
                        assert(self.global@ =~= spec_global_step(old(self).global@, event@));
                    }
                },
            },
            AppEvent::Cancel => match self.global.state_machine {
                StateMachine::FilePanelView => {
                    if self.global.file_panel_search.is_active() {
                        self.global.file_panel_search.cancel();
                    }
                    proof {
                        assert(self.global@ =~= spec_global_step(old(self).global@, event@));
                    }
                },
                StateMachine::FileDependentsView => {
                    if self.global.file_dependent_panel_search.is_active() {
                        self.global.file_dependent_panel_search.cancel();
                    } else {
                        self.global.state_machine = StateMachine::FilePanelView;
                        self.global.selected_dependency_source = None;
                    }
                    proof {
                        assert(self.global@ =~= spec_global_step(old(self).global@, event@));
                    }
                },
            },
            _ => {},
        }
    }
}

/// The event one key press becomes at the global level. While either
/// view's search prompt is open, characters, backspace and enter feed the
/// prompt; otherwise the vi-style and arrow keys move, `/` opens a search,
/// escape cancels and `q` quits.
pub open spec fn spec_global_produce(g: GlobalModel, key: KeyInput) -> Option<EventModel> {
    let prompting = g.file_panel_search is Prompt || g.file_dependent_panel_search is Prompt;
    match key {
        KeyInput::Char(c) => {
            if prompting {
                Option::Some(EventModel::SearchInput(c))
            } else if c == 'j' {
                Option::Some(EventModel::DownButtonPressed)
            } else if c == 'k' {
                Option::Some(EventModel::UpButtonPressed)
            } else if c == '/' {
                Option::Some(EventModel::EnterSearch)
            } else if c == 'q' {
                Option::Some(EventModel::Quit)
            } else {
                Option::None
            }
        },
        KeyInput::Backspace => if prompting {
            Option::Some(EventModel::SearchInputDelete)
        } else {
            Option::None
        },
        KeyInput::Enter => if prompting {
            Option::Some(EventModel::SubmitSearch)
        } else {
            Option::None
        },
        KeyInput::Down => Option::Some(EventModel::DownButtonPressed),
        KeyInput::Up => Option::Some(EventModel::UpButtonPressed),
        KeyInput::Esc => Option::Some(EventModel::Cancel),
        KeyInput::Other => Option::None,
    }
}

impl GlobalState {
    /// Translates one key press into the global-level event, if any.
    pub fn produce_event(&self, key: &KeyInput) -> (r: Option<AppEvent>)
        ensures
            r.deep_view() == spec_global_produce(self@, *key),
    {
        let prompting = self.file_panel_search.is_prompting()
            || self.file_dependent_panel_search.is_prompting();
        match key {
            KeyInput::Char(c) => {
                if prompting {
                    Some(AppEvent::SearchInput(*c))
                } else if *c == 'j' {
                    Some(AppEvent::DownButtonPressed)
                } else if *c == 'k' {
                    Some(AppEvent::UpButtonPressed)
                } else if *c == '/' {
                    Some(AppEvent::EnterSearch)
                } else if *c == 'q' {
                    Some(AppEvent::Quit)
                } else {
                    None
                }
            },
            KeyInput::Backspace => if prompting {
                Some(AppEvent::SearchInputDelete)
            } else {
                None
            },
            KeyInput::Enter => if prompting {
                Some(AppEvent::SubmitSearch)
            } else {
                None
            },
            KeyInput::Down => Some(AppEvent::DownButtonPressed),
            KeyInput::Up => Some(AppEvent::UpButtonPressed),
            KeyInput::Esc => Some(AppEvent::Cancel),
            KeyInput::Other => None,
        }
    }
}

/// A placeholder widget for handlers that need none.
#[derive(Debug)]
pub struct NoopWidget;

} // verus!
