use vstd::prelude::*;

use crate::{CauseModel, FileEntryModel, LinkModel, RecomplileDependencyModel};
use crate::{DependencyCause, DependencyLink, FileEntry, RecomplileDependency};

verus! {

/// Everything the dispatcher can route: user intents, completion
/// notifications from the analysis server, and the chain-view intents the
/// navigator emits while walking an expanded dependency chain.
#[derive(Debug, PartialEq)]
pub enum AppEvent {
    UpButtonPressed,
    DownButtonPressed,
    SelectFile(FileEntry),
    SelectDependentFile(RecomplileDependency),
    ViewDependentFile(DependencyLink),
    StopViewDependentFile(DependencyLink),
    EnterSearch,
    SearchInput(char),
    SearchInputDelete,
    SubmitSearch,
    GetFilesDone(Vec<FileEntry>),
    GetDependencyCausesDone(Vec<DependencyCause>),
    Cancel,
    Quit,
}

/// Mathematical model of an [`AppEvent`].
#[verifier::ext_equal]
pub enum EventModel {
    UpButtonPressed,
    DownButtonPressed,
    SelectFile(FileEntryModel),
    SelectDependentFile(RecomplileDependencyModel),
    ViewDependentFile(LinkModel),
    StopViewDependentFile(LinkModel),
    EnterSearch,
    SearchInput(char),
    SearchInputDelete,
    SubmitSearch,
    GetFilesDone(Seq<FileEntryModel>),
    GetDependencyCausesDone(Seq<CauseModel>),
    Cancel,
    Quit,
}

impl View for AppEvent {
    type V = EventModel;

    open spec fn view(&self) -> EventModel {
        match self {
            AppEvent::UpButtonPressed => EventModel::UpButtonPressed,
            AppEvent::DownButtonPressed => EventModel::DownButtonPressed,
            AppEvent::SelectFile(f) => EventModel::SelectFile(f@),
            AppEvent::SelectDependentFile(d) => EventModel::SelectDependentFile(d@),
            AppEvent::ViewDependentFile(l) => EventModel::ViewDependentFile(l@),
            AppEvent::StopViewDependentFile(l) => EventModel::StopViewDependentFile(l@),
            AppEvent::EnterSearch => EventModel::EnterSearch,
            AppEvent::SearchInput(c) => EventModel::SearchInput(*c),
            AppEvent::SearchInputDelete => EventModel::SearchInputDelete,
            AppEvent::SubmitSearch => EventModel::SubmitSearch,
            AppEvent::GetFilesDone(fs) => EventModel::GetFilesDone(fs.deep_view()),
            AppEvent::GetDependencyCausesDone(cs) => EventModel::GetDependencyCausesDone(
                cs.deep_view(),
            ),
            AppEvent::Cancel => EventModel::Cancel,
            AppEvent::Quit => EventModel::Quit,
        }
    }
}

impl DeepView for AppEvent {
    type V = EventModel;

    open spec fn deep_view(&self) -> EventModel {
        self.view()
    }
}

/// One terminal key press, as plain data. The binary translates whatever
/// the terminal backend delivers into this; keys the application does not
/// react to arrive as `Other`.
#[derive(Clone, Copy, Debug, PartialEq, Eq, Structural)]
pub enum KeyInput {
    Char(char),
    Backspace,
    Enter,
    Up,
    Down,
    Esc,
    Other,
}

} // verus!
