//! An address field: the text that stands in it, and what the text denotes.

use crate::text::{
    dotted_decimal, format_ipv4, lemma_parse_of_dotted_decimal, parse_dotted_decimal, parse_ipv4,
    Parsed,
};
use vstd::prelude::*;

verus! {

/// One address field of the calculator. It keeps the text as it was typed
/// or derived, and beside it the address that this text denotes, or the
/// mark that it denotes none.
#[derive(Debug)]
pub struct Address {
    raw_text: String,
    parsed: Parsed,
}

/// An address field as a mathematical value.
pub struct AddressView {
    pub text: Seq<char>,
    pub parsed: Parsed,
}

impl AddressView {
    /// The field that holds a text, read as an address.
    pub open spec fn of_text(text: Seq<char>) -> AddressView {
        AddressView { text, parsed: parse_dotted_decimal(text) }
    }

    /// The field that holds an address, written in dotted-decimal form.
    pub open spec fn of_value(addr: u32) -> AddressView {
        AddressView { text: dotted_decimal(addr), parsed: Parsed::Valid(addr) }
    }

    /// Whether the two forms agree: `parsed` is what `text` denotes.
    pub open spec fn in_sync(self) -> bool {
        self.parsed == parse_dotted_decimal(self.text)
    }

    /// Whether the text denotes an address.
    pub open spec fn is_valid(self) -> bool {
        self.parsed is Valid
    }
}

impl View for Address {
    type V = AddressView;

    closed spec fn view(&self) -> AddressView {
        AddressView { text: self.raw_text@, parsed: self.parsed }
    }
}

impl Clone for Address {
    fn clone(&self) -> (copy: Address)
        ensures
            copy@ == self@,
    {
        Address { raw_text: self.raw_text.clone(), parsed: self.parsed }
    }
}

impl Address {
    /// Makes the field that holds `text`, and reads the text.
    pub fn from_text(text: &str) -> (field: Address)
        ensures
            field@ == AddressView::of_text(text@),
            field@.in_sync(),
    {
        Address { raw_text: text.to_owned(), parsed: parse_ipv4(text) }
    }

    /// Makes the field that holds `addr`, written in dotted-decimal form.
    pub fn from_value(addr: u32) -> (field: Address)
        ensures
            field@ == AddressView::of_value(addr),
            field@.in_sync(),
    {
        proof {
            lemma_parse_of_dotted_decimal(addr);
        }
        Address { raw_text: format_ipv4(addr), parsed: Parsed::Valid(addr) }
    }

    /// The text of the field.
    pub fn raw_text(&self) -> (text: &str)
        ensures
            text@ == self@.text,
    {
        self.raw_text.as_str()
    }

    /// What the text of the field denotes.
    pub fn parsed(&self) -> (parsed: Parsed)
        ensures
            parsed == self@.parsed,
    {
        self.parsed
    }

    /// Whether the text of the field denotes an address.
    pub fn is_valid(&self) -> (valid: bool)
        ensures
            valid == self@.is_valid(),
    {
        match self.parsed {
            Parsed::Valid(_) => true,
            Parsed::Invalid => false,
        }
    }
}

/// A field made from a text or from an address has its two forms in
/// agreement.
pub proof fn lemma_fields_in_sync(text: Seq<char>, addr: u32)
    ensures
        AddressView::of_text(text).in_sync(),
        AddressView::of_value(addr).in_sync(),
{
    lemma_parse_of_dotted_decimal(addr);
}

} // verus!
