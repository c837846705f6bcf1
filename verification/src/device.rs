//! The supported Launchpad models and the mapping between physical pad
//! indices, the indices sent on the wire, and the LED indices.

use vstd::prelude::*;

verus! {

/// A Launchpad model.
#[derive(Clone, Copy, Debug, PartialEq, Eq, Structural)]
pub enum Model {
    ProMk3,
    X,
    MiniMk3,
    Mk2,
    Pro,
    Basic,
}

/// A pad of the 8x8 grid: both decimal digits of the index lie in 1..=8.
#[verifier::allow_in_spec]
pub fn is_grid(index: u8) -> bool
    returns
        1 <= index / 10 <= 8 && 1 <= index % 10 <= 8,
{
    let row = index / 10;
    let col = index % 10;
    1 <= row && row <= 8 && 1 <= col && col <= 8
}

/// A pad of the right-hand column (19, 29, ..., 89).
pub open spec fn is_right_column(index: u8) -> bool {
    19 <= index <= 89 && index % 10 == 9
}

impl Model {
    /// The model selected by the firmware's build features.  The features are
    /// tested in a fixed priority order; with none of them, the model is `Basic`.
    pub fn current(pro_mk3: bool, x: bool, mini_mk3: bool, mk2: bool, pro: bool) -> (m: Self)
        ensures
            m == (if pro_mk3 {
                Model::ProMk3
            } else if x {
                Model::X
            } else if mini_mk3 {
                Model::MiniMk3
            } else if mk2 {
                Model::Mk2
            } else if pro {
                Model::Pro
            } else {
                Model::Basic
            }),
    {
        if pro_mk3 {
            Self::ProMk3
        } else if x {
            Self::X
        } else if mini_mk3 {
            Self::MiniMk3
        } else if mk2 {
            Self::Mk2
        } else if pro {
            Self::Pro
        } else {
            Self::Basic
        }
    }

    /// The Novation product byte that identifies the model in SysEx headers.
    #[verifier::allow_in_spec]
    pub fn product(self) -> Option<u8>
        returns
            match self {
                Model::ProMk3 => Some(0x0eu8),
                Model::X => Some(0x0cu8),
                Model::MiniMk3 => Some(0x0du8),
                Model::Mk2 => Some(0x18u8),
                Model::Pro => Some(0x10u8),
                Model::Basic => None,
            },
    {
        match self {
            Self::ProMk3 => Some(0x0e),
            Self::X => Some(0x0c),
            Self::MiniMk3 => Some(0x0d),
            Self::Mk2 => Some(0x18),
            Self::Pro => Some(0x10),
            Self::Basic => None,
        }
    }

    /// Whether the model has a pad with this index.
    #[verifier::allow_in_spec]
    pub fn valid_index(self, index: u8) -> bool
        returns
            is_grid(index) || match self {
                Model::ProMk3 => (1 <= index <= 8) || (101 <= index <= 108) || (10 <= index <= 90
                    && index % 10 == 0) || is_right_column(index) || (91 <= index <= 99),
                Model::Pro => (1 <= index <= 8) || (10 <= index <= 80 && index % 10 == 0)
                    || is_right_column(index) || (91 <= index <= 99),
                Model::Mk2 | Model::Basic => (91 <= index <= 98) || is_right_column(index),
                _ => (91 <= index <= 99) || is_right_column(index),
            },
    {
        if is_grid(index) {
            return true;
        }
        let right = 19 <= index && index <= 89 && index % 10 == 9;
        match self {
            Self::ProMk3 => {
                (1 <= index && index <= 8) || (101 <= index && index <= 108) || (10 <= index
                    && index <= 90 && index % 10 == 0) || right || (91 <= index && index <= 99)
            },
            Self::Pro => {
                (1 <= index && index <= 8) || (10 <= index && index <= 80 && index % 10 == 0)
                    || right || (91 <= index && index <= 99)
            },
            Self::Mk2 | Self::Basic => (91 <= index && index <= 98) || right,
            _ => (91 <= index && index <= 99) || right,
        }
    }

    /// Whether a pad speaks Control Change (rather than Note) messages.
    #[verifier::allow_in_spec]
    pub fn is_cc(self, index: u8) -> bool
        returns
            if self == Model::Mk2 {
                91 <= index <= 98
            } else {
                !is_grid(index)
            },
    {
        if self == Self::Mk2 {
            91 <= index && index <= 98
        } else {
            !is_grid(index)
        }
    }

    /// The controller number sent for a pad: the Mk2 sends its top row as 104..=111.
    #[verifier::allow_in_spec]
    pub fn wire_index(self, index: u8) -> u8
        returns
            if self == Model::Mk2 && 91 <= index <= 98 {
                (index + 13) as u8
            } else {
                index
            },
    {
        if self == Self::Mk2 && 91 <= index && index <= 98 {
            index + 13
        } else {
            index
        }
    }

    /// The LED that shows a pad: on the Pro Mk3 the logo (99) is LED 0.
    #[verifier::allow_in_spec]
    pub fn led_index(self, index: u8) -> u8
        returns
            if self == Model::ProMk3 && index == 99 {
                0u8
            } else {
                index
            },
    {
        if self == Self::ProMk3 && index == 99 {
            0
        } else {
            index
        }
    }

    /// The pad addressed by an incoming note (`cc == false`) or controller
    /// (`cc == true`) number, if the model has such a pad of that kind.
    #[verifier::allow_in_spec]
    pub fn physical_index(self, wire: u8, cc: bool) -> Option<u8>
        returns
            ({
                let index = if self == Model::Mk2 && cc && 104 <= wire <= 111 {
                    (wire - 13) as u8
                } else {
                    wire
                };
                if self.valid_index(index) && self.is_cc(index) == cc {
                    Some(index)
                } else {
                    None
                }
            }),
    {
        let index = if self == Self::Mk2 && cc && 104 <= wire && wire <= 111 {
            wire - 13
        } else {
            wire
        };
        if self.valid_index(index) && self.is_cc(index) == cc {
            Some(index)
        } else {
            None
        }
    }
}

/// What is sent for a pad can be read back: for every pad of a model, the
/// incoming message that `wire_index` and `is_cc` describe addresses that pad.
pub proof fn lemma_physical_index_inverts_wire_index(model: Model, index: u8)
    requires
        model.valid_index(index),
    ensures
        model.physical_index(model.wire_index(index), model.is_cc(index)) == Some(index),
{
}

} // verus!
