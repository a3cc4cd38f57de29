//! The state of the address form and how the events of the window change
//! it.

use vstd::prelude::*;
use vstd::string::StringExecFns;

verus! {

/// Colour theme of the user interface.
#[derive(Clone, Copy, Debug, PartialEq, Eq, Structural)]
pub enum ColorTheme {
    Light,
    Dark,
}

/// An address as the user types it in.
#[derive(Debug, Clone, PartialEq, Eq)]
pub struct Adress {
    /// Street name.
    pub gata: String,
    /// House number.
    pub gatunummer: String,
    /// Postal code.
    pub postnummer: String,
    /// Whether the address is watched.
    pub aktiv: bool,
}

/// What is kept in storage.
#[allow(non_camel_case_types)]
#[derive(Debug, Clone, PartialEq, Eq)]
pub enum Lagring {
    adress(Adress),
}

/// What the window reports to the form.
#[derive(Debug, Clone)]
pub enum Message {
    GataChanged(String),
    GatunummerChanged(String),
    PostnummerChanged(String),
    AddAddressButtonPressed,
    Selected(Adress),
    OptionHovered(Adress),
    Closed,
}

/// The form after a message: a changed field takes the text that was typed,
/// an address that was selected or hovered over gives its street name to the
/// form, and every other message leaves the form as it is.
pub open spec fn updated(state: Adress, message: Message) -> Adress {
    match message {
        Message::GataChanged(gata) => Adress { gata, ..state },
        Message::GatunummerChanged(gatunummer) => Adress { gatunummer, ..state },
        Message::PostnummerChanged(postnummer) => Adress { postnummer, ..state },
        Message::AddAddressButtonPressed => state,
        Message::Selected(adress) => Adress { gata: adress.gata, ..state },
        Message::OptionHovered(adress) => Adress { gata: adress.gata, ..state },
        Message::Closed => state,
    }
}

impl Adress {
    /// The empty form.
    pub fn new() -> (form: Self)
        ensures
            form.gata@.len() == 0,
            form.gatunummer@.len() == 0,
            form.postnummer@.len() == 0,
            !form.aktiv,
    {
        Self {
            gata: String::new(),
            gatunummer: String::new(),
            postnummer: String::new(),
            aktiv: false,
        }
    }

    /// Takes a message of the window into the form.
    pub fn update(state: &mut Adress, message: Message)
        ensures
            *final(state) == updated(*old(state), message),
    {
        match message {
            Message::GataChanged(gata) => {
                state.gata = gata;
            },
            Message::GatunummerChanged(gatunummer) => {
                state.gatunummer = gatunummer;
            },
            Message::PostnummerChanged(postnummer) => {
                state.postnummer = postnummer;
            },
            Message::AddAddressButtonPressed => {},
            Message::Selected(adress) => {
                state.gata = adress.gata;
            },
            Message::OptionHovered(adress) => {
                state.gata = adress.gata;
            },
            Message::Closed => {},
        }
    }
}

impl Default for Adress {
    fn default() -> (form: Self)
        ensures
            form.gata@.len() == 0,
            form.gatunummer@.len() == 0,
            form.postnummer@.len() == 0,
            !form.aktiv,
    {
        Adress::new()
    }
}

impl Lagring {
    /// The text that stands for what is stored.
    pub fn to_string(&self) -> (text: String)
        ensures
            text@ == "test"@,
    {
        match self {
            Lagring::adress(_) => String::from_str("test"),
        }
    }
}

} // verus!
