//! Control packets: addressed messages with arguments, and bundles of packets.

use vstd::prelude::*;
use crate::scalar::Scalar;

verus! {

/// One argument of a control message. The engine reads whole numbers and real
/// numbers; an argument of any other kind is `Other`.
#[derive(Clone, Copy, Debug, PartialEq, Eq, Structural)]
pub enum Arg {
    Int(i32),
    Float(Scalar),
    Other,
}

/// A control packet.
#[derive(Debug, PartialEq)]
pub enum Packet {
    /// An address and its arguments; `None` where the message carries no
    /// argument list.
    Message { addr: String, args: Option<Vec<Arg>> },
    /// A time tag (seconds and fraction) and the packets it holds, in order.
    Bundle { timetag: (u32, u32), content: Vec<Packet> },
}

/// What a packet says.
pub enum PacketView {
    Message { addr: Seq<char>, args: Option<Seq<Arg>> },
    Bundle { timetag: (u32, u32), content: Seq<PacketView> },
}

/// What a packet says.
pub open spec fn packet_view(p: Packet) -> PacketView
    decreases p,
{
    match p {
        Packet::Message { addr, args } => PacketView::Message {
            addr: addr@,
            args: match args {
                Some(v) => Some(v@),
                None => None,
            },
        },
        Packet::Bundle { timetag, content } => PacketView::Bundle {
            timetag,
            content: Seq::new(
                content@.len(),
                |i: int|
                    if 0 <= i < content@.len() {
                        packet_view(content@[i])
                    } else {
                        arbitrary()
                    },
            ),
        },
    }
}

impl View for Packet {
    type V = PacketView;

    open spec fn view(&self) -> PacketView {
        packet_view(*self)
    }
}

/// What a list of packets says, one by one.
pub open spec fn views(packets: Seq<Packet>) -> Seq<PacketView> {
    Seq::new(packets.len(), |i: int| packets[i]@)
}

/// A message with an argument list.
pub open spec fn message_of(addr: Seq<char>, args: Seq<Arg>) -> PacketView {
    PacketView::Message { addr, args: Some(args) }
}

impl Packet {
    /// A message to `addr` with the arguments `args`.
    pub fn message(addr: &str, args: Vec<Arg>) -> (r: Packet)
        ensures
            r@ == message_of(addr@, args@),
    {
        Packet::Message { addr: addr.to_owned(), args: Some(args) }
    }

    /// The bundle of `content` under the time tag `timetag`.
    pub fn bundle(timetag: (u32, u32), content: Vec<Packet>) -> (r: Packet)
        ensures
            r@ == (PacketView::Bundle { timetag, content: views(content@) }),
    {
        let ghost items = content@;
        let r = Packet::Bundle { timetag, content };
        assert(r@->Bundle_content =~= views(items));
        r
    }
}

impl Clone for Packet {
    fn clone(&self) -> (r: Self)
        ensures
            r@ == self@,
        decreases self,
    {
        match self {
            Packet::Message { addr, args } => {
                let copied = match args {
                    Some(v) => Some(copy_args(v)),
                    None => None,
                };
                Packet::Message { addr: addr.clone(), args: copied }
            },
            Packet::Bundle { timetag, content } => {
                let mut out: Vec<Packet> = Vec::new();
                let mut i: usize = 0;
                while i < content.len()
                    invariant
                        i <= content.len(),
                        out@.len() == i,
                        forall|j: int| 0 <= j < i ==> out@[j]@ == content@[j]@,
                        forall|j: int|
                            0 <= j < content@.len() ==> decreases_to!(self => #[trigger] content@[j]),
                    decreases content.len() - i,
                {
                    let c = content[i].clone();
                    out.push(c);
                    i += 1;
                }
                let r = Packet::Bundle { timetag: *timetag, content: out };
                assert(r@->Bundle_content =~= self@->Bundle_content);
                r
            },
        }
    }
}

/// A copy of an argument list.
fn copy_args(args: &Vec<Arg>) -> (r: Vec<Arg>)
    ensures
        r@ == args@,
{
    let mut out: Vec<Arg> = Vec::new();
    let mut i: usize = 0;
    while i < args.len()
        invariant
            i <= args.len(),
            out@ == args@.subrange(0, i as int),
        decreases args.len() - i,
    {
        out.push(args[i]);
        i += 1;
    }
    assert(out@ =~= args@);
    out
}

} // verus!
