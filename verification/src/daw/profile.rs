//! Per-model facts of the DAW mode: which pages exist, which buttons select
//! them, and where a model starts when no DAW is connected.

use vstd::prelude::*;
use crate::device::Model;

verus! {

/// A page of the Launchpad's interface.
#[derive(Clone, Copy, Debug, PartialEq, Eq, Structural)]
pub enum Page {
    Session,
    Note,
    Chord,
    Custom,
    Sequencer,
    Projects,
    Drums,
    Keys,
    User,
}

/// The models that speak the current-generation DAW protocol.
#[verifier::allow_in_spec]
pub fn modern(model: Model) -> bool
    returns
        model == Model::ProMk3 || model == Model::X || model == Model::MiniMk3,
{
    match model {
        Model::ProMk3 | Model::X | Model::MiniMk3 => true,
        _ => false,
    }
}

/// The page a model shows when no DAW has taken over.
#[verifier::allow_in_spec]
pub fn standalone_page(model: Model) -> Page
    returns
        match model {
            Model::ProMk3 | Model::X => Page::Note,
            Model::MiniMk3 => Page::Keys,
            _ => Page::Session,
        },
{
    match model {
        Model::ProMk3 | Model::X => Page::Note,
        Model::MiniMk3 => Page::Keys,
        _ => Page::Session,
    }
}

/// The layout number of the standalone page.
#[verifier::allow_in_spec]
pub fn standalone_layout(model: Model) -> u8
    returns
        match model {
            Model::ProMk3 => 4u8,
            Model::X => 1u8,
            Model::MiniMk3 => 5u8,
            _ => 0u8,
        },
{
    match model {
        Model::ProMk3 => 4,
        Model::X => 1,
        Model::MiniMk3 => 5,
        _ => 0,
    }
}

/// How many fader banks the model offers a DAW.
#[verifier::allow_in_spec]
pub fn banks(model: Model) -> usize
    returns
        match model {
            Model::ProMk3 => 4usize,
            Model::Basic => 0usize,
            _ => 1usize,
        },
{
    match model {
        Model::ProMk3 => 4,
        Model::Basic => 0,
        _ => 1,
    }
}

/// The page that a button of the top row selects, if it is a page button.
#[verifier::allow_in_spec]
pub fn page_button(model: Model, index: u8) -> Option<Page>
    returns
        match (model, index) {
            (Model::ProMk3, 93) => Some(Page::Session),
            (Model::X, 95) => Some(Page::Session),
            (Model::MiniMk3, 95) => Some(Page::Session),
            (Model::ProMk3, 94) => Some(Page::Note),
            (Model::X, 96) => Some(Page::Note),
            (Model::ProMk3, 95) => Some(Page::Chord),
            (Model::ProMk3, 96) => Some(Page::Custom),
            (Model::X, 97) => Some(Page::Custom),
            (Model::ProMk3, 97) => Some(Page::Sequencer),
            (Model::ProMk3, 98) => Some(Page::Projects),
            (Model::MiniMk3, 96) => Some(Page::Drums),
            (Model::MiniMk3, 97) => Some(Page::Keys),
            (Model::MiniMk3, 98) => Some(Page::User),
            _ => None,
        },
{
    match (model, index) {
        (Model::ProMk3, 93) | (Model::X, 95) | (Model::MiniMk3, 95) => Some(Page::Session),
        (Model::ProMk3, 94) | (Model::X, 96) => Some(Page::Note),
        (Model::ProMk3, 95) => Some(Page::Chord),
        (Model::ProMk3, 96) | (Model::X, 97) => Some(Page::Custom),
        (Model::ProMk3, 97) => Some(Page::Sequencer),
        (Model::ProMk3, 98) => Some(Page::Projects),
        (Model::MiniMk3, 96) => Some(Page::Drums),
        (Model::MiniMk3, 97) => Some(Page::Keys),
        (Model::MiniMk3, 98) => Some(Page::User),
        _ => None,
    }
}

/// Every page button is a pad of its model, in the top row.
pub proof fn lemma_page_buttons_are_top_row_pads(model: Model, index: u8)
    requires
        page_button(model, index) is Some,
    ensures
        model.valid_index(index),
        93 <= index <= 98,
        !crate::device::is_grid(index),
{
}

} // verus!
