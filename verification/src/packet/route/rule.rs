//! Routing rule operations
use crate::packet::netlink::{
    nl_kind, nl_payload, NetlinkBufIterator, NetlinkMsgFlags, NetlinkPacket,
};
use crate::packet::reader::{
    lemma_read_step, model_wf, read_model, session_transcript, ActionModel, ReaderModel,
};
use crate::packet::route::headers::FibRulePacket;
use crate::packet::route::link::{ifinfo, ifinfo_header, request, request_bytes};
use crate::packet::route::{
    attrs, first_of_type, rta_payload, rta_type, RtAttrIterator, RtAttrPacket,
};
use crate::wire::{get_u32_le, u32_value};
use vstd::endian::Endian;
use vstd::prelude::*;
use vstd::slice::slice_subrange;

verus! {

pub const RTM_NEWRULE: u16 = 32;

pub const RTM_DELRULE: u16 = 33;

pub const RTM_GETRULE: u16 = 34;

pub const FRA_UNSPEC: u16 = 0;

/// destination address
pub const FRA_DST: u16 = 1;

/// source address
pub const FRA_SRC: u16 = 2;

/// interface name
pub const FRA_IFNAME: u16 = 3;

/// target to jump to (FR_ACT_GOTO)
pub const FRA_GOTO: u16 = 4;

pub const FRA_UNUSED2: u16 = 5;

/// priority/preference
pub const FRA_PRIORITY: u16 = 6;

pub const FRA_UNUSED3: u16 = 7;

pub const FRA_UNUSED4: u16 = 8;

pub const FRA_UNUSED5: u16 = 9;

/// mark
pub const FRA_FWMARK: u16 = 10;

/// flow/class id
pub const FRA_FLOW: u16 = 11;

pub const FRA_TUN_ID: u16 = 12;

pub const FRA_SUPPRESS_IFGROUP: u16 = 13;

pub const FRA_SUPPRESS_PREFIXLEN: u16 = 14;

/// Extended table id
pub const FRA_TABLE: u16 = 15;

/// mask for netfilter mark
pub const FRA_FWMASK: u16 = 16;

pub const FRA_OIFNAME: u16 = 17;

/// What one attribute of a routing rule says.
#[derive(Debug, Copy, Clone, PartialEq, Eq, Structural)]
pub enum RuleAttr {
    /// The priority, read least significant byte first.
    Priority(u32),
    /// The prefix length to suppress; the payload holds it.
    SuppressPrefixLen,
    /// The routing table id, read least significant byte first.
    Table(u32),
    /// An attribute of another type, or a number cut short; the type is
    /// given.
    Other(u16),
}

/// What the attribute `attr` of a routing rule says.
pub open spec fn rule_attr_of(attr: Seq<u8>) -> RuleAttr {
    let kind = rta_type(attr);
    let payload = rta_payload(attr);
    let little = u32_value(payload.subrange(0, 4), Endian::Little);
    if kind == FRA_SUPPRESS_PREFIXLEN {
        RuleAttr::SuppressPrefixLen
    } else if payload.len() < 4 {
        RuleAttr::Other(kind)
    } else if kind == FRA_PRIORITY {
        RuleAttr::Priority(little)
    } else if kind == FRA_TABLE {
        RuleAttr::Table(little)
    } else {
        RuleAttr::Other(kind)
    }
}

/// True if the message `b` describes a routing rule: its kind says so, and its
/// payload holds the header of such a message.
pub open spec fn is_rule_message(b: Seq<u8>) -> bool {
    nl_kind(b) == RTM_NEWRULE && nl_payload(b).len() >= 12
}

/// The attributes of the message `b`: what follows the header in its payload.
pub open spec fn rule_attrs(b: Seq<u8>) -> Seq<Seq<u8>> {
    attrs(nl_payload(b).subrange(12, nl_payload(b).len() as int))
}

/// One routing rule, as the kernel reports it.
#[derive(Debug)]
pub struct Route {
    packet: NetlinkPacket<'static>,
}

impl Route {
    /// The bytes of the message.
    pub closed spec fn view(&self) -> Seq<u8> {
        self.packet@
    }

    #[verifier::type_invariant]
    spec fn holds_header(self) -> bool {
        is_rule_message(self.packet@)
    }

    /// The first attribute of the given type, if there is one.
    pub open spec fn attribute(&self, kind: u16) -> Option<Seq<u8>> {
        first_of_type(rule_attrs(self@), kind)
    }

    /// What `pkt` describes, if `pkt` is a message of the kind.
    pub fn from_packet(pkt: NetlinkPacket<'static>) -> (item: Option<Route>)
        ensures
            item.is_some() <==> is_rule_message(pkt@),
            item.is_some() ==> item.unwrap()@ == pkt@,
    {
        if pkt.get_kind() != RTM_NEWRULE {
            return None;
        }
        if pkt.payload().len() < 12 {
            return None;
        }
        Some(Route { packet: pkt })
    }

    /// The message itself.
    pub fn packet(&self) -> (pkt: &NetlinkPacket<'static>)
        ensures
            pkt@ == self@,
            is_rule_message(self@),
    {
        proof {
            use_type_invariant(self);
        }
        &self.packet
    }

    /// The header of the message.
    pub fn rule_header(&self) -> (hdr: FibRulePacket<'_>)
        ensures
            hdr@ == nl_payload(self@),
    {
        proof {
            use_type_invariant(self);
        }
        FibRulePacket::new(self.packet.payload()).unwrap()
    }

    /// An iterator over the attributes.
    pub fn rta_iter(&self) -> (iter: RtAttrIterator<'_>)
        ensures
            attrs(iter@) == rule_attrs(self@),
    {
        proof {
            use_type_invariant(self);
        }
        let payload = self.packet.payload();
        RtAttrIterator::new(slice_subrange(payload, 12, payload.len()))
    }

    /// The first attribute of the given type.
    pub fn rta(&self, rta_type: u16) -> (found: Option<RtAttrPacket<'_>>)
        ensures
            match self.attribute(rta_type) {
                Some(bytes) => found.is_some() && found.unwrap()@ == bytes,
                None => found.is_none(),
            },
    {
        self.rta_iter().find_type(rta_type)
    }

    /// What one attribute of a rule says.
    pub fn describe(rta: &RtAttrPacket) -> (info: RuleAttr)
        ensures
            info == rule_attr_of(rta@),
    {
        let kind = rta.get_rta_type();
        let payload = rta.payload();
        if kind == FRA_SUPPRESS_PREFIXLEN {
            RuleAttr::SuppressPrefixLen
        } else if payload.len() < 4 {
            RuleAttr::Other(kind)
        } else if kind == FRA_PRIORITY {
            RuleAttr::Priority(get_u32_le(payload, 0))
        } else if kind == FRA_TABLE {
            RuleAttr::Table(get_u32_le(payload, 0))
        } else {
            RuleAttr::Other(kind)
        }
    }
}

/// The rules that a run of messages starts with: the messages up to the
/// first that describes none.
pub open spec fn leading_rules(messages: Seq<Seq<u8>>) -> Seq<Seq<u8>>
    decreases messages.len(),
{
    if messages.len() > 0 && is_rule_message(messages[0]) {
        seq![messages[0]] + leading_rules(messages.drop_first())
    } else {
        Seq::empty()
    }
}

/// The rules among the messages of a session, up to the first message that
/// describes none.
#[derive(Debug)]
pub struct RulesIterator {
    iter: NetlinkBufIterator,
}

impl RulesIterator {
    /// The session's reader.
    pub closed spec fn reader(&self) -> ReaderModel {
        self.iter.reader()
    }

    /// The chunks that the source still holds.
    pub closed spec fn pending(&self) -> Seq<Seq<u8>> {
        self.iter.pending()
    }

    /// The session was set up by `new` and driven by its own methods.
    pub closed spec fn wf(&self) -> bool {
        self.iter.wf()
    }

    /// The rules of the session `iter`.
    pub fn new(iter: NetlinkBufIterator) -> (items: Self)
        requires
            iter.wf(),
        ensures
            items.wf(),
            items.reader() == iter.reader(),
            items.pending() == iter.pending(),
    {
        RulesIterator { iter: iter }
    }

    /// What the session's next message describes; nothing if the session is
    /// over or the message is of another kind.
    pub fn next(&mut self) -> (item: Option<Route>)
        requires
            old(self).wf(),
        ensures
            final(self).wf(),
            ({
                let (reader, pending, action) = read_model(old(self).reader(), old(self).pending());
                &&& final(self).reader() == reader
                &&& final(self).pending() == pending
                &&& match action {
                    ActionModel::Message(frame) => {
                        &&& item.is_some() <==> is_rule_message(frame)
                        &&& item.is_some() ==> item.unwrap()@ == frame
                    },
                    _ => item.is_none(),
                }
            }),
    {
        match self.iter.next() {
            Some(pkt) => Route::from_packet(pkt),
            None => None,
        }
    }

    /// A well-formed session has a well-formed reader.
    pub proof fn lemma_wf_model(&self)
        requires
            self.wf(),
        ensures
            model_wf(self.reader()),
    {
        self.iter.lemma_wf_model();
    }

    /// All rules that the session yields before a message of another
    /// kind or its end, in order.
    pub fn collect(self) -> (list: Vec<Route>)
        requires
            self.wf(),
        ensures
            list@.len() == leading_rules(
                session_transcript(self.reader(), self.pending()).messages,
            ).len(),
            forall|i: int|
                0 <= i < list@.len() ==> (#[trigger] list@[i])@ == leading_rules(
                    session_transcript(self.reader(), self.pending()).messages,
                )[i],
    {
        let mut iter = self;
        let mut list: Vec<Route> = Vec::new();
        let ghost all = leading_rules(session_transcript(self.reader(), self.pending()).messages);
        loop
            invariant_except_break
                iter.wf(),
                list@.len() + leading_rules(
                    session_transcript(iter.reader(), iter.pending()).messages,
                ).len() == all.len(),
                forall|i: int|
                    0 <= i < leading_rules(
                        session_transcript(iter.reader(), iter.pending()).messages,
                    ).len() ==> #[trigger] leading_rules(
                        session_transcript(iter.reader(), iter.pending()).messages,
                    )[i] == all[list@.len() + i],
            invariant
                all == leading_rules(session_transcript(self.reader(), self.pending()).messages),
                forall|i: int| 0 <= i < list@.len() ==> (#[trigger] list@[i])@ == all[i],
            ensures
                list@.len() == all.len(),
                forall|i: int| 0 <= i < list@.len() ==> (#[trigger] list@[i])@ == all[i],
            decreases
                    iter.pending().len(),
                    iter.reader().buf.len() + 3 - iter.reader().cursor,
        {
            let ghost before = session_transcript(iter.reader(), iter.pending()).messages;
            proof {
                iter.lemma_wf_model();
                lemma_read_step(iter.reader(), iter.pending());
            }
            match iter.next() {
                Some(item) => {
                    proof {
                        let later = session_transcript(iter.reader(), iter.pending()).messages;
                        assert(before[0] == item@);
                        assert(before.drop_first() =~= later);
                        assert(is_rule_message(before[0]));
                        assert(leading_rules(before) =~= seq![before[0]] + leading_rules(later));
                        assert(leading_rules(before)[0] == all[list@.len() as int]);
                        assert forall|i: int| 0 <= i < leading_rules(later).len() implies #[trigger]
                            leading_rules(later)[i] == all[list@.len() + 1 + i] by {
                            assert(leading_rules(later)[i] == leading_rules(before)[i + 1]);
                        }
                        iter.lemma_wf_model();
                    }
                    list.push(item);
                },
                None => {
                    proof {
                        if before.len() > 0 {
                            assert(!is_rule_message(before[0]));
                        }
                        assert(leading_rules(before).len() == 0);
                    }
                    break ;
                },
            }
        }
        list
    }

    /// The last of the rules that the session yields before a message of
    /// another kind or its end.
    pub fn last(self) -> (item: Option<Route>)
        requires
            self.wf(),
        ensures
            match item {
                Some(found) => leading_rules(
                    session_transcript(self.reader(), self.pending()).messages,
                ).len() > 0 && found@ == leading_rules(
                    session_transcript(self.reader(), self.pending()).messages,
                ).last(),
                None => leading_rules(
                    session_transcript(self.reader(), self.pending()).messages,
                ).len() == 0,
            },
    {
        let mut list = self.collect();
        list.pop()
    }
}

/// The request that asks for all routing rules.
pub fn iter_rules_request() -> (req: NetlinkPacket<'static>)
    ensures
        req@ == request_bytes(RTM_GETRULE, 0x300, ifinfo_header(0, 0, 0, 0, 0)),
{
    proof {
        assert(0x300u16 & 0xf1f == 0x300) by (bit_vector);
    }
    let ifi = ifinfo(0  /* AF_UNSPEC */ , 0, 0, 0, 0);
    request(RTM_GETRULE, NetlinkMsgFlags::NLM_F_DUMP, ifi.packet())
}

} // verus!
