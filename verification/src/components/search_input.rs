use vstd::prelude::*;
use vstd::string::*;

use crate::utils::{chars_of, string_of};

verus! {

/// Two-phase search state of one list view: no search, a prompt being
/// typed, or a committed query actively narrowing the list.
#[derive(Debug, PartialEq)]
pub enum State {
    Idle,
    Prompt(String),
    Search(String),
}

/// Mathematical model of a search [`State`].
#[verifier::ext_equal]
pub enum SearchModel {
    Idle,
    Prompt(Seq<char>),
    Search(Seq<char>),
}

impl View for State {
    type V = SearchModel;

    open spec fn view(&self) -> SearchModel {
        match self {
            State::Idle => SearchModel::Idle,
            State::Prompt(input) => SearchModel::Prompt(input@),
            State::Search(query) => SearchModel::Search(query@),
        }
    }
}

impl DeepView for State {
    type V = SearchModel;

    open spec fn deep_view(&self) -> SearchModel {
        self.view()
    }
}

impl Clone for State {
    fn clone(&self) -> (res: Self)
        ensures
            res@ == self@,
    {
        match self {
            State::Idle => State::Idle,
            State::Prompt(input) => State::Prompt(input.clone()),
            State::Search(query) => State::Search(query.clone()),
        }
    }
}

impl Default for State {
    fn default() -> (res: Self)
        ensures
            res@ == SearchModel::Idle,
    {
        State::Idle
    }
}

/// Beginning a prompt only has an effect from the idle state.
pub open spec fn spec_prompt_begin(s: SearchModel) -> SearchModel {
    match s {
        SearchModel::Idle => SearchModel::Prompt(Seq::empty()),
        _ => s,
    }
}

/// Typing appends one character to an open prompt.
pub open spec fn spec_prompt_add(s: SearchModel, c: char) -> SearchModel {
    match s {
        SearchModel::Prompt(input) => SearchModel::Prompt(input.push(c)),
        _ => s,
    }
}

/// Deleting removes the last character of an open prompt, if any.
pub open spec fn spec_prompt_remove(s: SearchModel) -> SearchModel {
    match s {
        SearchModel::Prompt(input) => if input.len() == 0 {
            SearchModel::Prompt(input)
        } else {
            SearchModel::Prompt(input.drop_last())
        },
        _ => s,
    }
}

/// Committing turns an open prompt into a committed query.
pub open spec fn spec_search(s: SearchModel) -> SearchModel {
    match s {
        SearchModel::Prompt(input) => SearchModel::Search(input),
        _ => s,
    }
}

/// Cancelling abandons a prompt or clears a committed query.
pub open spec fn spec_cancel(s: SearchModel) -> SearchModel {
    SearchModel::Idle
}

impl State {
    /// The search is active while a prompt is open or a query is committed.
    pub fn is_active(&self) -> (r: bool)
        ensures
            r == !(self@ is Idle),
    {
        match self {
            State::Search(_) => true,
            State::Prompt(_) => true,
            _ => false,
        }
    }

    pub fn is_prompting(&self) -> (r: bool)
        ensures
            r == (self@ is Prompt),
    {
        match self {
            State::Search(_) => false,
            State::Prompt(_) => true,
            _ => false,
        }
    }

    pub fn is_searching(&self) -> (r: bool)
        ensures
            r == (self@ is Search),
    {
        match self {
            State::Search(_) => true,
            _ => false,
        }
    }

    pub fn prompt_input(&self) -> (r: Option<String>)
        ensures
            match self@ {
                SearchModel::Prompt(input) => (r matches Some(s) && s@ == input),
                _ => r is None,
            },
    {
        match self {
            State::Prompt(input) => Some(input.clone()),
            _ => None,
        }
    }

    pub fn prompt_begin(&mut self)
        ensures
            final(self)@ == spec_prompt_begin(old(self)@),
    {
        if let State::Idle = self {
            *self = State::Prompt(String::new());
        }
    }

    pub fn prompt_add(&mut self, c: char)
        ensures
            final(self)@ == spec_prompt_add(old(self)@, c),
    {
        if let State::Prompt(input) = self {
            let mut cs = chars_of(input.as_str());
            cs.push(c);
            *input = string_of(&cs);
        }
    }

    pub fn prompt_remove(&mut self)
        ensures
            final(self)@ == spec_prompt_remove(old(self)@),
    {
        if let State::Prompt(input) = self {
            let n = input.as_str().unicode_len();
            if n > 0 {
                *input = String::from_str(input.as_str().substring_char(0, n - 1));
            }
        }
    }

    pub fn search(&mut self)
        ensures
            final(self)@ == spec_search(old(self)@),
    {
        if let State::Prompt(input) = self {
            *self = State::Search(input.clone());
        }
    }

    pub fn cancel(&mut self)
        ensures
            final(self)@ == spec_cancel(old(self)@),
    {
        match self {
            State::Prompt(_) => *self = State::Idle,
            State::Search(_) => *self = State::Idle,
            _ => {},
        }
    }
}

/// The footer widget that displays the search state of the active view.
#[derive(Debug)]
pub struct SearchInput {
    pub state: State,
}

impl SearchInput {
    pub fn new(state: State) -> (res: Self)
        ensures
            res.state@ == state@,
    {
        SearchInput { state }
    }
}

impl Clone for SearchInput {
    fn clone(&self) -> (res: Self)
        ensures
            res.state@ == self.state@,
    {
        SearchInput { state: self.state.clone() }
    }
}

} // verus!
