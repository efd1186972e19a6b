use vstd::prelude::*;

use crate::app_event::{AppEvent, EventModel, KeyInput};
use crate::{FileEntry, FileEntryModel};

verus! {

/// The panel listing every file with recompile dependents; `files` is
/// `None` while the listing is still being fetched.
#[derive(Debug)]
pub struct FilePanel {
    pub files: Option<Vec<FileEntry>>,
    pub panel_title: Option<String>,
}

/// Mathematical model of a [`FilePanel`].
#[verifier::ext_equal]
pub struct FilePanelModel {
    pub files: Option<Seq<FileEntryModel>>,
    pub panel_title: Option<Seq<char>>,
}

impl View for FilePanel {
    type V = FilePanelModel;

    open spec fn view(&self) -> FilePanelModel {
        FilePanelModel {
            files: self.files.deep_view(),
            panel_title: self.panel_title.deep_view(),
        }
    }
}

impl FilePanel {
    pub fn new(files: Option<Vec<FileEntry>>, panel_title: Option<String>) -> (res: Self)
        ensures
            res@.files == files.deep_view(),
            res@.panel_title == panel_title.deep_view(),
    {
        FilePanel { files, panel_title }
    }
}

impl Clone for FilePanel {
    fn clone(&self) -> (res: Self)
        ensures
            res@ == self@,
    {
        let files = match &self.files {
            Some(fs) => {
                let copy = fs.clone();
                proof {
                    assert forall|i: int| 0 <= i < copy@.len() implies copy@[i]@ == fs@[i]@ by {
                        assert(cloned::<FileEntry>(fs[i], copy[i]));
                    }
                    assert(copy.deep_view() =~= fs.deep_view());
                }
                Some(copy)
            },
            None => None,
        };
        let panel_title = match &self.panel_title {
            Some(t) => Some(t.clone()),
            None => None,
        };
        let res = FilePanel { files, panel_title };
        proof {
            assert(res@ =~= self@);
        }
        res
    }
}

/// Cursor state of the file panel.
#[derive(Debug)]
pub struct State {
    pub selected_file_index: usize,
}

impl State {
    pub fn new() -> (res: Self)
        ensures
            res.selected_file_index == 0,
    {
        State { selected_file_index: 0 }
    }
}

/// Where the file-panel cursor moves on one event: down and up are clamped
/// to the listing, committing a search resets to the first row, and nothing
/// moves while no listing is present or the listing is empty.
pub open spec fn spec_file_panel_step(
    idx: int,
    event: EventModel,
    files: Option<Seq<FileEntryModel>>,
) -> int {
    match files {
        Option::None => idx,
        Option::Some(fs) => {
            if fs.len() == 0 {
                idx
            } else {
                match event {
                    EventModel::DownButtonPressed => if idx < fs.len() - 1 {
                        idx + 1
                    } else {
                        idx
                    },
                    EventModel::UpButtonPressed => if idx > 0 {
                        idx - 1
                    } else {
                        idx
                    },
                    EventModel::SubmitSearch => 0,
                    _ => idx,
                }
            }
        },
    }
}

/// The event the file panel turns a key press into: enter selects the file
/// under the cursor.
pub open spec fn spec_file_panel_produce(
    idx: int,
    key: KeyInput,
    files: Option<Seq<FileEntryModel>>,
) -> Option<EventModel> {
    match key {
        KeyInput::Enter => match files {
            Option::Some(fs) => Option::Some(EventModel::SelectFile(fs[idx])),
            Option::None => Option::None,
        },
        _ => Option::None,
    }
}

impl State {
    pub fn handle_event(&mut self, event: &AppEvent, widget: &FilePanel)
        ensures
            final(self).selected_file_index as int == spec_file_panel_step(
                old(self).selected_file_index as int,
                event@,
                widget@.files,
            ),
    {
        if let Some(files) = &widget.files {
            if files.len() == 0 {
                return ;
            }
            match event {
                AppEvent::DownButtonPressed => {
                    if self.selected_file_index < files.len() - 1 {
                        self.selected_file_index = self.selected_file_index + 1;
                    }
                },
                AppEvent::UpButtonPressed => {
                    if self.selected_file_index > 0 {
                        self.selected_file_index = self.selected_file_index - 1;
                    }
                },
                AppEvent::SubmitSearch => {
                    self.selected_file_index = 0;
                },
                _ => {},
            }
        }
    }

    pub fn produce_event(&self, key: &KeyInput, widget: &FilePanel) -> (r: Option<AppEvent>)
        requires
            (*key is Enter && widget@.files is Some) ==> (self.selected_file_index as int)
                < widget@.files->0.len(),
        ensures
            r.deep_view() == spec_file_panel_produce(
                self.selected_file_index as int,
                *key,
                widget@.files,
            ),
    {
        match key {
            KeyInput::Enter => {
                if let Some(files) = &widget.files {
                    let entry = files[self.selected_file_index].clone();
                    proof {
                        assert(entry@ == widget@.files->0[self.selected_file_index as int]);
                    }
                    Some(AppEvent::SelectFile(entry))
                } else {
                    None
                }
            },
            _ => None,
        }
    }
}

} // verus!
