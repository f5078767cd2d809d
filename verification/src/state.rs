//! The calculator: a host address and a subnet mask, which the user edits,
//! and the network and broadcast address, which follow from them.

use crate::address::{Address, AddressView};
use crate::mask::{
    block_size, broadcast_address, broadcast_of, canonical_mask, host_count, is_canonical,
    is_canonical_mask, leading_ones, lemma_network_and_broadcast, lemma_prefix_of,
    lemma_prefix_of_canonical_mask, mask_from_prefix, network_address, network_of, prefix_of,
    usable_hosts,
};
use crate::text::{
    lemma_dotted_decimal_of_parse, lemma_parse_of_dotted_decimal, parse_dotted_decimal, Parsed,
};
use vstd::prelude::*;

verus! {

/// The host address that a new calculator holds: 192.168.0.1.
pub const DEFAULT_HOST: u32 = 0xC0A8_0001;

/// The prefix length that a new calculator holds.
pub const DEFAULT_PREFIX_LENGTH: u32 = 24;

/// The state of the calculator. The host and the mask are what the user
/// enters; the network and the broadcast address are derived from them and
/// never entered.
#[derive(Debug)]
pub struct CalculatorState {
    host: Address,
    mask: Address,
    prefix_length: u32,
    network: Address,
    broadcast: Address,
}

/// The state of the calculator as a mathematical value.
pub struct StateView {
    pub host: AddressView,
    pub mask: AddressView,
    pub prefix_length: u32,
    pub network: AddressView,
    pub broadcast: AddressView,
}

/// One edit by the user: what was entered, and into which field.
#[derive(Debug)]
pub enum Edit {
    /// A new text for the host field.
    HostText(String),
    /// A new prefix length, from 0 to 32.
    PrefixLength(u32),
    /// A new text for the mask field.
    MaskText(String),
    /// A new text for the network field.
    NetworkText(String),
    /// A new text for the broadcast field.
    BroadcastText(String),
}

/// An edit as a mathematical value.
pub enum EditView {
    HostText(Seq<char>),
    PrefixLength(u32),
    MaskText(Seq<char>),
    NetworkText(Seq<char>),
    BroadcastText(Seq<char>),
}

impl View for Edit {
    type V = EditView;

    open spec fn view(&self) -> EditView {
        match self {
            Edit::HostText(text) => EditView::HostText(text@),
            Edit::PrefixLength(len) => EditView::PrefixLength(*len),
            Edit::MaskText(text) => EditView::MaskText(text@),
            Edit::NetworkText(text) => EditView::NetworkText(text@),
            Edit::BroadcastText(text) => EditView::BroadcastText(text@),
        }
    }
}

impl Clone for Edit {
    fn clone(&self) -> (copy: Edit)
        ensures
            copy@ == self@,
    {
        match self {
            Edit::HostText(text) => Edit::HostText(text.clone()),
            Edit::PrefixLength(len) => Edit::PrefixLength(*len),
            Edit::MaskText(text) => Edit::MaskText(text.clone()),
            Edit::NetworkText(text) => Edit::NetworkText(text.clone()),
            Edit::BroadcastText(text) => Edit::BroadcastText(text.clone()),
        }
    }
}

impl EditView {
    /// Whether the calculator takes the edit: a prefix length is at most 32.
    pub open spec fn is_accepted(self) -> bool {
        self matches EditView::PrefixLength(len) ==> len <= 32
    }
}

impl StateView {
    /// The state of a new calculator: the default host under the canonical
    /// mask of the default prefix length.
    pub open spec fn initial() -> StateView {
        let mask = canonical_mask(DEFAULT_PREFIX_LENGTH);
        StateView {
            host: AddressView::of_value(DEFAULT_HOST),
            mask: AddressView::of_value(mask),
            prefix_length: DEFAULT_PREFIX_LENGTH,
            network: AddressView::of_value(network_of(DEFAULT_HOST, mask)),
            broadcast: AddressView::of_value(broadcast_of(DEFAULT_HOST, mask)),
        }
    }

    /// What holds of every state that the calculator can be in.
    pub open spec fn wf(self) -> bool {
        &&& self.prefix_length <= 32
        &&& self.host.in_sync()
        &&& self.mask.in_sync()
        &&& self.network.in_sync()
        &&& self.broadcast.in_sync()
        &&& self.network.is_valid()
        &&& self.broadcast.is_valid()
        &&& self.mask.parsed matches Parsed::Valid(mask) ==> is_canonical(mask) ==> {
            &&& self.prefix_length == prefix_of(mask)
            &&& self.host.parsed matches Parsed::Valid(host) ==> {
                &&& self.network.parsed == Parsed::Valid(network_of(host, mask))
                &&& self.broadcast.parsed == Parsed::Valid(broadcast_of(host, mask))
            }
        }
    }

    /// The state with the network and the broadcast address of `host` under
    /// `mask` in place of the ones it had.
    pub open spec fn with_derived(self, host: u32, mask: u32) -> StateView {
        StateView {
            network: AddressView::of_value(network_of(host, mask)),
            broadcast: AddressView::of_value(broadcast_of(host, mask)),
            ..self
        }
    }

    /// The state after the user has put `text` into the host field. The
    /// derived addresses follow where both the host and the mask are valid,
    /// and stay as they were where the new text is no address.
    pub open spec fn with_host_text(self, text: Seq<char>) -> StateView {
        let entered = StateView { host: AddressView::of_text(text), ..self };
        match (entered.host.parsed, entered.mask.parsed) {
            (Parsed::Valid(host), Parsed::Valid(mask)) => entered.with_derived(host, mask),
            _ => entered,
        }
    }

    /// The state after the user has set the prefix length to `len`. The mask
    /// becomes the canonical mask of that length, whatever stood in the mask
    /// field, and the derived addresses follow where the host is valid.
    pub open spec fn with_prefix_length(self, len: u32) -> StateView
        recommends
            len <= 32,
    {
        let mask = canonical_mask(len);
        let entered = StateView {
            prefix_length: len,
            mask: AddressView::of_value(mask),
            ..self
        };
        match entered.host.parsed {
            Parsed::Valid(host) => entered.with_derived(host, mask),
            Parsed::Invalid => entered,
        }
    }

    /// The state after the user has put `text` into the mask field. A text
    /// that is no address, or an address that is no canonical mask, is kept
    /// in the field and changes nothing else. A canonical mask sets the
    /// prefix length, and the derived addresses follow where the host is
    /// valid.
    pub open spec fn with_mask_text(self, text: Seq<char>) -> StateView {
        match parse_dotted_decimal(text) {
            Parsed::Valid(mask) if is_canonical(mask) => {
                let entered = StateView {
                    prefix_length: prefix_of(mask),
                    mask: AddressView::of_value(mask),
                    ..self
                };
                match entered.host.parsed {
                    Parsed::Valid(host) => entered.with_derived(host, mask),
                    Parsed::Invalid => entered,
                }
            },
            _ => StateView { mask: AddressView::of_text(text), ..self },
        }
    }

    /// The state after an edit. An edit of a derived field changes nothing.
    pub open spec fn apply(self, edit: EditView) -> StateView
        recommends
            edit.is_accepted(),
    {
        match edit {
            EditView::HostText(text) => self.with_host_text(text),
            EditView::PrefixLength(len) => self.with_prefix_length(len),
            EditView::MaskText(text) => self.with_mask_text(text),
            EditView::NetworkText(_) => self,
            EditView::BroadcastText(_) => self,
        }
    }

    /// The number of usable host addresses that the calculator shows.
    pub open spec fn host_count(self) -> nat {
        usable_hosts(self.prefix_length)
    }
}

impl View for CalculatorState {
    type V = StateView;

    closed spec fn view(&self) -> StateView {
        StateView {
            host: self.host@,
            mask: self.mask@,
            prefix_length: self.prefix_length,
            network: self.network@,
            broadcast: self.broadcast@,
        }
    }
}

impl CalculatorState {
    /// Makes a calculator in its initial state.
    pub fn new() -> (state: CalculatorState)
        ensures
            state@ == StateView::initial(),
            state@.wf(),
    {
        let mask = mask_from_prefix(DEFAULT_PREFIX_LENGTH);
        proof {
            lemma_prefix_of_canonical_mask(DEFAULT_PREFIX_LENGTH);
        }
        CalculatorState {
            host: Address::from_value(DEFAULT_HOST),
            mask: Address::from_value(mask),
            prefix_length: DEFAULT_PREFIX_LENGTH,
            network: Address::from_value(network_address(DEFAULT_HOST, mask)),
            broadcast: Address::from_value(broadcast_address(DEFAULT_HOST, mask)),
        }
    }

    /// Derives the network and the broadcast address of `host` under `mask`.
    fn calculate_addresses(&mut self, mask: u32, host: u32)
        ensures
            final(self)@ == old(self)@.with_derived(host, mask),
            final(self)@.network.in_sync(),
            final(self)@.broadcast.in_sync(),
    {
        self.network = Address::from_value(network_address(host, mask));
        self.broadcast = Address::from_value(broadcast_address(host, mask));
    }

    /// Takes a new text for the host field.
    pub fn update_host_text(&mut self, new_text: &str)
        requires
            old(self)@.wf(),
        ensures
            final(self)@ == old(self)@.with_host_text(new_text@),
            final(self)@.wf(),
            final(self)@.host == AddressView::of_text(new_text@),
            final(self)@.mask == old(self)@.mask,
            final(self)@.prefix_length == old(self)@.prefix_length,
            parse_dotted_decimal(new_text@) is Invalid ==> {
                &&& !final(self)@.host.is_valid()
                &&& final(self)@.network == old(self)@.network
                &&& final(self)@.broadcast == old(self)@.broadcast
            },
    {
        self.host = Address::from_text(new_text);
        if let Parsed::Valid(host) = self.host.parsed() {
            if let Parsed::Valid(mask) = self.mask.parsed() {
                self.calculate_addresses(mask, host);
            }
        }
    }

    /// Takes a new prefix length, from 0 to 32.
    pub fn update_prefix_length(&mut self, new_bits: u32)
        requires
            old(self)@.wf(),
            new_bits <= 32,
        ensures
            final(self)@ == old(self)@.with_prefix_length(new_bits),
            final(self)@.wf(),
            final(self)@.prefix_length == new_bits,
            final(self)@.mask == AddressView::of_value(canonical_mask(new_bits)),
            final(self)@.host == old(self)@.host,
    {
        let mask = mask_from_prefix(new_bits);
        proof {
            lemma_prefix_of_canonical_mask(new_bits);
        }
        self.prefix_length = new_bits;
        self.mask = Address::from_value(mask);
        if let Parsed::Valid(host) = self.host.parsed() {
            self.calculate_addresses(mask, host);
        }
    }

    /// Takes a new text for the mask field.
    pub fn update_mask_text(&mut self, new_text: &str)
        requires
            old(self)@.wf(),
        ensures
            final(self)@ == old(self)@.with_mask_text(new_text@),
            final(self)@.wf(),
            final(self)@.host == old(self)@.host,
            final(self)@.mask.parsed == parse_dotted_decimal(new_text@),
            !(parse_dotted_decimal(new_text@) matches Parsed::Valid(mask) && is_canonical(mask))
                ==> {
                &&& final(self)@.mask == AddressView::of_text(new_text@)
                &&& final(self)@.prefix_length == old(self)@.prefix_length
                &&& final(self)@.network == old(self)@.network
                &&& final(self)@.broadcast == old(self)@.broadcast
            },
    {
        let entered = Address::from_text(new_text);
        match entered.parsed() {
            Parsed::Valid(mask) => {
                if is_canonical_mask(mask) {
                    self.prefix_length = leading_ones(mask);
                    self.mask = Address::from_value(mask);
                    if let Parsed::Valid(host) = self.host.parsed() {
                        self.calculate_addresses(mask, host);
                    }
                } else {
                    self.mask = entered;
                }
            },
            Parsed::Invalid => {
                self.mask = entered;
            },
        }
    }

    /// Takes a new text for the network field, and leaves the state as it
    /// is: the network address is derived, never entered.
    pub fn update_network_text(&mut self, new_text: &str)
        ensures
            final(self)@ == old(self)@,
    {
    }

    /// Takes a new text for the broadcast field, and leaves the state as it
    /// is: the broadcast address is derived, never entered.
    pub fn update_broadcast_text(&mut self, new_text: &str)
        ensures
            final(self)@ == old(self)@,
    {
    }

    /// Takes one edit by the user.
    pub fn apply(&mut self, edit: &Edit)
        requires
            old(self)@.wf(),
            edit@.is_accepted(),
        ensures
            final(self)@ == old(self)@.apply(edit@),
            final(self)@.wf(),
    {
        match edit {
            Edit::HostText(text) => self.update_host_text(text.as_str()),
            Edit::PrefixLength(len) => self.update_prefix_length(*len),
            Edit::MaskText(text) => self.update_mask_text(text.as_str()),
            Edit::NetworkText(text) => self.update_network_text(text.as_str()),
            Edit::BroadcastText(text) => self.update_broadcast_text(text.as_str()),
        }
    }

    /// The host field.
    pub fn host(&self) -> (field: &Address)
        ensures
            field@ == self@.host,
    {
        &self.host
    }

    /// The mask field.
    pub fn mask(&self) -> (field: &Address)
        ensures
            field@ == self@.mask,
    {
        &self.mask
    }

    /// The network field.
    pub fn network(&self) -> (field: &Address)
        ensures
            field@ == self@.network,
    {
        &self.network
    }

    /// The broadcast field.
    pub fn broadcast(&self) -> (field: &Address)
        ensures
            field@ == self@.broadcast,
    {
        &self.broadcast
    }

    /// The prefix length.
    pub fn prefix_length(&self) -> (len: u32)
        ensures
            len == self@.prefix_length,
    {
        self.prefix_length
    }

    /// The number of usable host addresses.
    pub fn host_count(&self) -> (count: u64)
        ensures
            count == self@.host_count(),
    {
        host_count(self.prefix_length)
    }
}

/// The initial state is well-formed.
pub proof fn lemma_initial_wf()
    ensures
        StateView::initial().wf(),
{
    let mask = canonical_mask(DEFAULT_PREFIX_LENGTH);
    lemma_prefix_of_canonical_mask(DEFAULT_PREFIX_LENGTH);
    lemma_parse_of_dotted_decimal(DEFAULT_HOST);
    lemma_parse_of_dotted_decimal(mask);
    lemma_parse_of_dotted_decimal(network_of(DEFAULT_HOST, mask));
    lemma_parse_of_dotted_decimal(broadcast_of(DEFAULT_HOST, mask));
}

/// An edit that the calculator takes leaves a well-formed state well-formed.
pub proof fn lemma_apply_wf(state: StateView, edit: EditView)
    requires
        state.wf(),
        edit.is_accepted(),
    ensures
        state.apply(edit).wf(),
{
    match edit {
        EditView::HostText(text) => {
            if let Parsed::Valid(host) = parse_dotted_decimal(text) {
                if let Parsed::Valid(mask) = state.mask.parsed {
                    lemma_parse_of_dotted_decimal(network_of(host, mask));
                    lemma_parse_of_dotted_decimal(broadcast_of(host, mask));
                }
            }
        },
        EditView::PrefixLength(len) => {
            let mask = canonical_mask(len);
            lemma_prefix_of_canonical_mask(len);
            lemma_parse_of_dotted_decimal(mask);
            if let Parsed::Valid(host) = state.host.parsed {
                lemma_parse_of_dotted_decimal(network_of(host, mask));
                lemma_parse_of_dotted_decimal(broadcast_of(host, mask));
            }
        },
        EditView::MaskText(text) => {
            if let Parsed::Valid(mask) = parse_dotted_decimal(text) {
                lemma_prefix_of(mask);
                lemma_parse_of_dotted_decimal(mask);
                if let Parsed::Valid(host) = state.host.parsed {
                    lemma_parse_of_dotted_decimal(network_of(host, mask));
                    lemma_parse_of_dotted_decimal(broadcast_of(host, mask));
                }
            }
        },
        EditView::NetworkText(_) => {},
        EditView::BroadcastText(_) => {},
    }
}

/// In a well-formed state with a valid host and a canonical mask, the mask
/// is the canonical mask of the prefix length, the network field holds the
/// host with its host bits cleared, and the broadcast field holds the host
/// with its host bits set: the first and the last address of the host's
/// block of `2^(32 - prefix_length)` addresses.
pub proof fn lemma_derived_addresses(state: StateView, host: u32, mask: u32)
    requires
        state.wf(),
        state.host.parsed == Parsed::Valid(host),
        state.mask.parsed == Parsed::Valid(mask),
        is_canonical(mask),
    ensures
        mask == canonical_mask(state.prefix_length),
        state.mask == AddressView::of_value(mask),
        state.network == AddressView::of_value(host & mask),
        state.broadcast == AddressView::of_value(host | !mask),
        (host & mask) as nat % block_size(state.prefix_length) == 0,
        (host | !mask) as nat % block_size(state.prefix_length) == block_size(
            state.prefix_length,
        ) - 1,
{
    lemma_dotted_decimal_of_parse(state.mask.text, mask);
    lemma_dotted_decimal_of_parse(state.network.text, host & mask);
    lemma_dotted_decimal_of_parse(state.broadcast.text, host | !mask);
    lemma_network_and_broadcast(host, state.prefix_length);
}

impl Clone for CalculatorState {
    fn clone(&self) -> (copy: CalculatorState)
        ensures
            copy@ == self@,
    {
        CalculatorState {
            host: self.host.clone(),
            mask: self.mask.clone(),
            prefix_length: self.prefix_length,
            network: self.network.clone(),
            broadcast: self.broadcast.clone(),
        }
    }
}

impl Default for CalculatorState {
    /// A calculator in its initial state.
    fn default() -> (state: CalculatorState)
        ensures
            state@ == StateView::initial(),
            state@.wf(),
    {
        CalculatorState::new()
    }
}

} // verus!
