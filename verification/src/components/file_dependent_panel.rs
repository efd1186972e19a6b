use vstd::prelude::*;

use crate::app_event::{AppEvent, EventModel, KeyInput};
use crate::utils::{chars_of, string_of};
use crate::{FilePath, RecomplileDependency, RecomplileDependencyModel};

verus! {

/// The dependents panel: the anchor file and the listing of its dependents.
#[derive(Debug)]
pub struct FileDependentPanel {
    pub dependency_source: FilePath,
    pub files: Vec<RecomplileDependency>,
}

/// Mathematical model of a [`FileDependentPanel`].
#[verifier::ext_equal]
pub struct FileDependentPanelModel {
    pub dependency_source: Seq<char>,
    pub files: Seq<RecomplileDependencyModel>,
}

impl View for FileDependentPanel {
    type V = FileDependentPanelModel;

    open spec fn view(&self) -> FileDependentPanelModel {
        FileDependentPanelModel {
            dependency_source: self.dependency_source@,
            files: self.files.deep_view(),
        }
    }
}

impl DeepView for FileDependentPanel {
    type V = FileDependentPanelModel;

    open spec fn deep_view(&self) -> FileDependentPanelModel {
        self.view()
    }
}

impl FileDependentPanel {
    pub fn new(dependency_source: FilePath, files: Vec<RecomplileDependency>) -> (res: Self)
        ensures
            res@.dependency_source == dependency_source@,
            res@.files == files.deep_view(),
    {
        FileDependentPanel { dependency_source, files }
    }
}

impl Clone for FileDependentPanel {
    fn clone(&self) -> (res: Self)
        ensures
            res@ == self@,
    {
        let files = self.files.clone();
        proof {
            assert forall|i: int| 0 <= i < files@.len() implies files@[i]@ == self.files@[i]@ by {
                assert(cloned::<RecomplileDependency>(self.files[i], files[i]));
            }
            assert(files.deep_view() =~= self.files.deep_view());
        }
        let res = FileDependentPanel { dependency_source: self.dependency_source.clone(), files };
        proof {
            assert(res@ =~= self@);
        }
        res
    }
}

/// Two-level cursor over the dependents listing: the outer row, optionally
/// a position inside the expanded entry's chain, and the id of the
/// expanded entry, if any.
#[derive(Debug)]
pub struct State {
    pub selected_file_index: (usize, Option<usize>),
    pub expanded_file: Option<String>,
}

/// Mathematical model of the navigator [`State`].
#[verifier::ext_equal]
pub struct NavModel {
    pub outer: int,
    pub inner: Option<int>,
    pub expanded: Option<Seq<char>>,
}

impl View for State {
    type V = NavModel;

    open spec fn view(&self) -> NavModel {
        NavModel {
            outer: self.selected_file_index.0 as int,
            inner: match self.selected_file_index.1 {
                Option::Some(i) => Option::Some(i as int),
                Option::None => Option::None,
            },
            expanded: self.expanded_file.deep_view(),
        }
    }
}

/// The state the navigator starts from and returns to on cancel.
pub open spec fn spec_nav_initial() -> NavModel {
    NavModel { outer: 0, inner: Option::None, expanded: Option::None }
}

/// Whether the cursor's outer row is the expanded entry.
pub open spec fn at_expanded(nav: NavModel, files: Seq<RecomplileDependencyModel>) -> bool {
    &&& nav.expanded is Some
    &&& 0 <= nav.outer < files.len()
    &&& files[nav.outer].id == nav.expanded->0
}

/// The navigator's invariant: the inner cursor exists only while the outer
/// row is the expanded entry, and then points inside that entry's chain.
pub open spec fn nav_wf(nav: NavModel, files: Seq<RecomplileDependencyModel>) -> bool {
    &&& 0 <= nav.outer
    &&& nav.inner is Some ==> at_expanded(nav, files) && 0 <= nav.inner->0 < files[
        nav.outer
    ].dependency_chain.len()
}

/// What a downward move needs: an expanded entry keeps the outer cursor
/// inside the listing, and stepping into an expansion needs a nonempty
/// chain.
pub open spec fn nav_down_ok(nav: NavModel, files: Seq<RecomplileDependencyModel>) -> bool {
    &&& nav.expanded is Some ==> nav.outer < files.len()
    &&& at_expanded(nav, files) && nav.inner is None ==> files[
        nav.outer
    ].dependency_chain.len() > 0
}

/// What an upward move needs: an expanded entry keeps the outer cursor
/// inside the listing, and moving up onto the expanded entry from below
/// needs its chain nonempty.
pub open spec fn nav_up_ok(nav: NavModel, files: Seq<RecomplileDependencyModel>) -> bool {
    &&& nav.expanded is Some ==> nav.outer < files.len()
    &&& (!(at_expanded(nav, files) && nav.inner is Some) && nav.outer > 0 && nav.expanded
        is Some && files[nav.outer - 1].id == nav.expanded->0) ==> files[
        nav.outer - 1
    ].dependency_chain.len() > 0
}

/// One downward move. Off the expanded entry the outer cursor advances,
/// clamped to the end. On it, the cursor first steps into the chain,
/// then walks it link by link — announcing the stop of the old link
/// strictly before the start of the new one — and from the last link it
/// always steps back out, announcing that link's stop; only the move onto
/// the next row is conditional on one existing.
pub open spec fn spec_nav_down(nav: NavModel, files: Seq<RecomplileDependencyModel>) -> (
    NavModel,
    Seq<EventModel>,
) {
    if at_expanded(nav, files) {
        let chain = files[nav.outer].dependency_chain;
        match nav.inner {
            Option::None => (
                NavModel { inner: Option::Some(0), ..nav },
                seq![EventModel::ViewDependentFile(chain[0])],
            ),
            Option::Some(i) => {
                if i == chain.len() - 1 {
                    (
                        NavModel {
                            outer: if nav.outer < files.len() - 1 {
                                nav.outer + 1
                            } else {
                                nav.outer
                            },
                            inner: Option::None,
                            ..nav
                        },
                        seq![EventModel::StopViewDependentFile(chain[i])],
                    )
                } else {
                    (
                        NavModel { inner: Option::Some(i + 1), ..nav },
                        seq![
                            EventModel::StopViewDependentFile(chain[i]),
                            EventModel::ViewDependentFile(chain[i + 1]),
                        ],
                    )
                }
            },
        }
    } else {
        (
            if files.len() != 0 && nav.outer < files.len() - 1 {
                NavModel { outer: nav.outer + 1, ..nav }
            } else {
                nav
            },
            Seq::empty(),
        )
    }
}

/// One upward move: the mirror of [`spec_nav_down`]. From the first chain
/// link the cursor steps back out onto the same row; inside the chain it
/// walks backwards; from the row below the expanded entry it re-enters the
/// chain at its last link.
pub open spec fn spec_nav_up(nav: NavModel, files: Seq<RecomplileDependencyModel>) -> (
    NavModel,
    Seq<EventModel>,
) {
    if at_expanded(nav, files) && nav.inner is Some {
        let chain = files[nav.outer].dependency_chain;
        let i = nav.inner->0;
        if i == 0 {
            (
                NavModel { inner: Option::None, ..nav },
                seq![EventModel::StopViewDependentFile(chain[0])],
            )
        } else {
            (
                NavModel { inner: Option::Some(i - 1), ..nav },
                seq![
                    EventModel::StopViewDependentFile(chain[i]),
                    EventModel::ViewDependentFile(chain[i - 1]),
                ],
            )
        }
    } else if nav.outer > 0 {
        let new_outer = nav.outer - 1;
        if nav.expanded is Some && 0 <= new_outer < files.len() && files[new_outer].id
            == nav.expanded->0 {
            let chain = files[new_outer].dependency_chain;
            (
                NavModel { outer: new_outer, inner: Option::Some(chain.len() - 1), ..nav },
                seq![EventModel::ViewDependentFile(chain[chain.len() - 1])],
            )
        } else {
            (NavModel { outer: new_outer, ..nav }, Seq::empty())
        }
    } else {
        (nav, Seq::empty())
    }
}

/// Toggling the entry under the cursor: collapse it if it is the expanded
/// one, else expand it (implicitly collapsing any other). Either way no
/// chain link remains selected.
pub open spec fn spec_nav_select(nav: NavModel, d: RecomplileDependencyModel) -> NavModel {
    if nav.expanded is Some && nav.expanded->0 == d.id {
        NavModel { expanded: Option::None, inner: Option::None, ..nav }
    } else {
        NavModel { expanded: Option::Some(d.id), inner: Option::None, ..nav }
    }
}

/// How the navigator reacts to one event. Committing a search resets the
/// two-level cursor to the first row — the filtered listing may be
/// shorter than the old one — while the expansion itself is kept.
pub open spec fn spec_nav_step(
    nav: NavModel,
    files: Seq<RecomplileDependencyModel>,
    event: EventModel,
) -> (NavModel, Seq<EventModel>) {
    match event {
        EventModel::DownButtonPressed => spec_nav_down(nav, files),
        EventModel::UpButtonPressed => spec_nav_up(nav, files),
        EventModel::SelectDependentFile(d) => (spec_nav_select(nav, d), Seq::empty()),
        EventModel::SubmitSearch => (
            NavModel { outer: 0, inner: Option::None, ..nav },
            Seq::empty(),
        ),
        EventModel::Cancel => (spec_nav_initial(), Seq::empty()),
        _ => (nav, Seq::empty()),
    }
}

impl State {
    pub fn new() -> (res: Self)
        ensures
            res@ == spec_nav_initial(),
    {
        let res = State { selected_file_index: (0, None), expanded_file: None };
        proof {
            assert(res@ =~= spec_nav_initial());
        }
        res
    }
}

/// `string` preceded by `amount` spaces, for the cascading chain rows.
pub fn pad_left(string: &str, amount: usize) -> (r: String)
    ensures
        r@ == Seq::new(amount as nat, |i: int| ' ') + string@,
{
    let mut out: Vec<char> = Vec::new();
    let mut i: usize = 0;
    while i < amount
        invariant
            i <= amount,
            out@ == Seq::new(i as nat, |k: int| ' '),
        decreases amount - i,
    {
        out.push(' ');
        i = i + 1;
        proof {
            assert(out@ =~= Seq::new(i as nat, |k: int| ' '));
        }
    }
    let mut cs = chars_of(string);
    out.append(&mut cs);
    string_of(&out)
}

/// The chain-view event for the link at `dependency_node_index` of the
/// entry under the outer cursor.
pub fn view_file_event(
    state: &State,
    dependency_node_index: usize,
    widget: &FileDependentPanel,
) -> (r: AppEvent)
    requires
        state@.outer < widget@.files.len(),
        dependency_node_index < widget@.files[state@.outer].dependency_chain.len(),
    ensures
        r@ == EventModel::ViewDependentFile(
            widget@.files[state@.outer].dependency_chain[dependency_node_index as int],
        ),
{
    let selected_file = &widget.files[state.selected_file_index.0];
    AppEvent::ViewDependentFile(selected_file.dependency_chain[dependency_node_index].clone())
}

/// The stop-view counterpart of [`view_file_event`].
pub fn stop_view_file_event(
    state: &State,
    dependency_node_index: usize,
    widget: &FileDependentPanel,
) -> (r: AppEvent)
    requires
        state@.outer < widget@.files.len(),
        dependency_node_index < widget@.files[state@.outer].dependency_chain.len(),
    ensures
        r@ == EventModel::StopViewDependentFile(
            widget@.files[state@.outer].dependency_chain[dependency_node_index as int],
        ),
{
    let selected_file = &widget.files[state.selected_file_index.0];
    AppEvent::StopViewDependentFile(selected_file.dependency_chain[dependency_node_index].clone())
}

/// Moves the two-level cursor one step down and returns the chain-view
/// events this emits, a stop always strictly before the next start.
pub fn handle_down_button_pressed(state: &mut State, widget: &FileDependentPanel) -> (events: Vec<
    AppEvent,
>)
    requires
        nav_wf(old(state)@, widget@.files),
        nav_down_ok(old(state)@, widget@.files),
    ensures
        final(state)@ == spec_nav_down(old(state)@, widget@.files).0,
        events.deep_view() == spec_nav_down(old(state)@, widget@.files).1,
        nav_wf(final(state)@, widget@.files),
{
    let mut events: Vec<AppEvent> = Vec::new();
    let outer = state.selected_file_index.0;
    let is_expanded_here = match &state.expanded_file {
        Some(expanded) => widget.files[outer].id == *expanded,
        None => false,
    };
    if is_expanded_here {
        let chain_len = widget.files[outer].dependency_chain.len();
        match state.selected_file_index.1 {
            Some(i) => {
                if i == chain_len - 1 {
                    events.push(stop_view_file_event(state, i, widget));
                    state.selected_file_index.1 = None;
                    if outer < widget.files.len() - 1 {
                        state.selected_file_index.0 = outer + 1;
                    }
                } else {
                    events.push(stop_view_file_event(state, i, widget));
                    events.push(view_file_event(state, i + 1, widget));
                    state.selected_file_index.1 = Some(i + 1);
                }
            },
            None => {
                events.push(view_file_event(state, 0, widget));
                state.selected_file_index.1 = Some(0);
            },
        }
    } else {
        if widget.files.len() != 0 && state.selected_file_index.0 < widget.files.len() - 1 {
            state.selected_file_index.0 = state.selected_file_index.0 + 1;
        }
    }
    proof {
        assert(state@ =~= spec_nav_down(old(state)@, widget@.files).0);
        assert(events.deep_view() =~= spec_nav_down(old(state)@, widget@.files).1);
    }
    events
}

/// Moves the two-level cursor one step up: the mirror of
/// [`handle_down_button_pressed`].
pub fn handle_up_button_pressed(state: &mut State, widget: &FileDependentPanel) -> (events: Vec<
    AppEvent,
>)
    requires
        nav_wf(old(state)@, widget@.files),
        nav_up_ok(old(state)@, widget@.files),
    ensures
        final(state)@ == spec_nav_up(old(state)@, widget@.files).0,
        events.deep_view() == spec_nav_up(old(state)@, widget@.files).1,
        nav_wf(final(state)@, widget@.files),
{
    let mut events: Vec<AppEvent> = Vec::new();
    let outer = state.selected_file_index.0;
    let is_expanded_here = match &state.expanded_file {
        Some(expanded) => widget.files[outer].id == *expanded,
        None => false,
    };
    if is_expanded_here && state.selected_file_index.1.is_some() {
        let i = match state.selected_file_index.1 {
            Some(i) => i,
            None => unreached(),
        };
        if i == 0 {
            events.push(stop_view_file_event(state, 0, widget));
            state.selected_file_index.1 = None;
        } else {
            events.push(stop_view_file_event(state, i, widget));
            events.push(view_file_event(state, i - 1, widget));
            state.selected_file_index.1 = Some(i - 1);
        }
    } else if state.selected_file_index.0 > 0 {
        state.selected_file_index.0 = outer - 1;
        let enters_chain = match &state.expanded_file {
            Some(expanded) => widget.files[outer - 1].id == *expanded,
            None => false,
        };
        if enters_chain {
            let chain_len = widget.files[outer - 1].dependency_chain.len();
            state.selected_file_index.1 = Some(chain_len - 1);
            events.push(view_file_event(state, chain_len - 1, widget));
        }
    }
    proof {
        assert(state@ =~= spec_nav_up(old(state)@, widget@.files).0);
        assert(events.deep_view() =~= spec_nav_up(old(state)@, widget@.files).1);
    }
    events
}

impl State {
    /// Reacts to one event; the returned events are follow-ups for the
    /// dispatcher.
    pub fn handle_event(&mut self, event: &AppEvent, widget: &FileDependentPanel) -> (events: Vec<
        AppEvent,
    >)
        requires
            nav_wf(old(self)@, widget@.files),
            *event is DownButtonPressed ==> nav_down_ok(old(self)@, widget@.files),
            *event is UpButtonPressed ==> nav_up_ok(old(self)@, widget@.files),
        ensures
            final(self)@ == spec_nav_step(old(self)@, widget@.files, event@).0,
            events.deep_view() == spec_nav_step(old(self)@, widget@.files, event@).1,
            nav_wf(final(self)@, widget@.files),
    {
        match event {
            AppEvent::DownButtonPressed => handle_down_button_pressed(self, widget),
            AppEvent::UpButtonPressed => handle_up_button_pressed(self, widget),
            AppEvent::SelectDependentFile(file) => {
                let collapse = match &self.expanded_file {
                    Some(expanded) => *expanded == file.id,
                    None => false,
                };
                if collapse {
                    self.expanded_file = None;
                } else {
                    self.expanded_file = Some(file.id.clone());
                }
                self.selected_file_index.1 = None;
                let events: Vec<AppEvent> = Vec::new();
                proof {
                    assert(self@ =~= spec_nav_step(old(self)@, widget@.files, event@).0);
                    assert(events.deep_view() =~= Seq::<EventModel>::empty());
                }
                events
            },
            AppEvent::SubmitSearch => {
                self.selected_file_index = (0, None);
                let events: Vec<AppEvent> = Vec::new();
                proof {
                    assert(self@ =~= spec_nav_step(old(self)@, widget@.files, event@).0);
                    assert(events.deep_view() =~= Seq::<EventModel>::empty());
                }
                events
            },
            AppEvent::Cancel => {
                *self = State::new();
                let events: Vec<AppEvent> = Vec::new();
                proof {
                    assert(events.deep_view() =~= Seq::<EventModel>::empty());
                }
                events
            },
            _ => {
                let events: Vec<AppEvent> = Vec::new();
                proof {
                    assert(events.deep_view() =~= Seq::<EventModel>::empty());
                }
                events
            },
        }
    }

    /// Translates one key press into an event: enter toggles the entry
    /// under the outer cursor.
    pub fn produce_event(&self, key: &KeyInput, widget: &FileDependentPanel) -> (r: Option<
        AppEvent,
    >)
        requires
            *key is Enter ==> self@.outer < widget@.files.len(),
        ensures
            match r {
                Option::Some(e) => *key is Enter && e@ == EventModel::SelectDependentFile(
                    widget@.files[self@.outer],
                ),
                Option::None => !(*key is Enter),
            },
    {
        match key {
            KeyInput::Enter => {
                let entry = widget.files[self.selected_file_index.0].clone();
                proof {
                    assert(entry@ == widget@.files[self@.outer]);
                }
                Some(AppEvent::SelectDependentFile(entry))
            },
            _ => None,
        }
    }
}

} // verus!
