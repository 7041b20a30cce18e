//! The address under which other machines reach the server.

use vstd::prelude::*;
use vstd::utf8::is_ascii_chars;

use crate::text::{
    contains, decimal, decimal_text, has_part, is_digit, lemma_decimal_digits, part_stands_between,
    pieces_add_up, split, text_without_separator_is_one_piece,
};

verus! {

/// The address of a network interface.
#[derive(Clone, Copy)]
pub enum Address {
    /// An IPv4 address, from its first octet to its last.
    V4([u8; 4]),
    /// An IPv6 address.
    V6,
}

/// A network interface.
pub struct Interface {
    pub name: String,
    pub address: Address,
}

/// What an [`Interface`] holds.
pub type InterfaceModel = (Seq<char>, Address);

/// What a list of interfaces holds.
pub open spec fn interface_models(interfaces: Seq<Interface>) -> Seq<InterfaceModel> {
    Seq::new(interfaces.len(), |i: int| (interfaces[i].name@, interfaces[i].address))
}

/// The lower case form of a text.
pub uninterp spec fn lower_case(s: Seq<char>) -> Seq<char>;

/// The same interfaces under lower case names.
pub open spec fn lower_case_names(interfaces: Seq<InterfaceModel>) -> Seq<InterfaceModel> {
    Seq::new(interfaces.len(), |i: int| (lower_case(interfaces[i].0), interfaces[i].1))
}

/// An ASCII text with small letters in place of its capital ones.
pub open spec fn ascii_lower_case(s: Seq<char>) -> Seq<char> {
    Seq::new(
        s.len(),
        |i: int|
            if 'A' <= s[i] && s[i] <= 'Z' {
                (s[i] as u32 + 32) as char
            } else {
                s[i]
            },
    )
}

/// `str::to_lowercase` of std gives the lower case form of a text. In an ASCII text it turns the
/// capital letters into small ones; what it makes of other characters is left to the name.
#[verifier::external_body]
fn to_lower_case(s: &str) -> (r: String)
    ensures
        r@ == lower_case(s@),
        is_ascii_chars(s@) ==> r@ == ascii_lower_case(s@),
{
    s.to_lowercase()
}

/// Whether a lower case interface name is that of a container, a virtual machine or a tunnel.
pub open spec fn is_virtual_name(name: Seq<char>) -> bool {
    ||| has_part(name, "docker"@)
    ||| has_part(name, "veth"@)
    ||| has_part(name, "br-"@)
    ||| has_part(name, "vbox"@)
    ||| has_part(name, "vmnet"@)
    ||| has_part(name, "tun"@)
    ||| has_part(name, "tap"@)
    ||| has_part(name, "utun"@)
}

/// 127.0.0.0/8.
pub open spec fn is_loopback(octets: [u8; 4]) -> bool {
    octets[0] == 127
}

/// 169.254.0.0/16, given out when no address could be had.
pub open spec fn is_link_local(octets: [u8; 4]) -> bool {
    octets[0] == 169 && octets[1] == 254
}

/// 10.0.0.0/8, 172.16.0.0/12 and 192.168.0.0/16.
pub open spec fn is_private(octets: [u8; 4]) -> bool {
    ||| octets[0] == 10
    ||| octets[0] == 172 && 16 <= octets[1] <= 31
    ||| octets[0] == 192 && octets[1] == 168
}

/// Whether other machines may reach the server over an interface.
pub open spec fn is_usable(interface: InterfaceModel) -> bool {
    match interface.1 {
        Address::V4(octets) => !is_loopback(octets) && !is_virtual_name(interface.0)
            && !is_link_local(octets),
        Address::V6 => false,
    }
}

/// The first usable address, or the first usable private one.
pub open spec fn first_usable(interfaces: Seq<InterfaceModel>, private_only: bool) -> Option<
    [u8; 4],
>
    decreases interfaces.len(),
{
    if interfaces.len() == 0 {
        None
    } else {
        match interfaces[0].1 {
            Address::V4(octets) if is_usable(interfaces[0]) && (private_only ==> is_private(
                octets,
            )) => Some(octets),
            _ => first_usable(interfaces.drop_first(), private_only),
        }
    }
}

/// The address to announce: the first usable private one, else the first usable one.
pub open spec fn announced(interfaces: Seq<InterfaceModel>) -> Option<[u8; 4]> {
    match first_usable(interfaces, true) {
        Some(octets) => Some(octets),
        None => first_usable(interfaces, false),
    }
}

/// An IPv4 address in dotted decimal form.
pub open spec fn dotted(octets: [u8; 4]) -> Seq<char> {
    decimal(octets[0] as nat) + "."@ + decimal(octets[1] as nat) + "."@ + decimal(octets[2] as nat)
        + "."@ + decimal(octets[3] as nat)
}

/// Writes an IPv4 address.
pub fn dotted_text(octets: [u8; 4]) -> (s: String)
    ensures
        s@ == dotted(octets),
{
    let mut s = decimal_text(octets[0] as u64);
    s.append(".");
    s.append(decimal_text(octets[1] as u64).as_str());
    s.append(".");
    s.append(decimal_text(octets[2] as u64).as_str());
    s.append(".");
    s.append(decimal_text(octets[3] as u64).as_str());
    s
}

/// Tests a lower case interface name.
pub fn virtual_name(name: &str) -> (b: bool)
    ensures
        b == is_virtual_name(name@),
{
    contains(name, "docker") || contains(name, "veth") || contains(name, "br-") || contains(
        name,
        "vbox",
    ) || contains(name, "vmnet") || contains(name, "tun") || contains(name, "tap") || contains(
        name,
        "utun",
    )
}

/// Picks the address to announce among interfaces with lower case names.
pub fn announced_address(interfaces: &Vec<Interface>) -> (r: Option<String>)
    ensures
        match r {
            Some(text) => match announced(interface_models(interfaces@)) {
                Some(octets) => text@ == dotted(octets),
                None => false,
            },
            None => announced(interface_models(interfaces@)) is None,
        },
{
    let ghost all = interface_models(interfaces@);
    let mut best: Option<[u8; 4]> = None;
    let mut i: usize = 0;
    assert(all.skip(0) == all);
    while i < interfaces.len()
        invariant
            i <= interfaces.len(),
            all == interface_models(interfaces@),
            first_usable(all, true) == first_usable(all.skip(i as int), true),
            first_usable(all, false) == match best {
                Some(octets) => Some(octets),
                None => first_usable(all.skip(i as int), false),
            },
        decreases interfaces.len() - i,
    {
        assert(all.skip(i as int)[0] == all[i as int]);
        assert(all.skip(i as int).drop_first() == all.skip(i + 1));
        match interfaces[i].address {
            Address::V4(octets) => {
                if octets[0] != 127 && !virtual_name(interfaces[i].name.as_str()) && !(octets[0]
                    == 169 && octets[1] == 254) {
                    if octets[0] == 10 || (octets[0] == 172 && 16 <= octets[1] && octets[1] <= 31)
                        || (octets[0] == 192 && octets[1] == 168) {
                        return Some(dotted_text(octets));
                    }
                    if best.is_none() {
                        best = Some(octets);
                    }
                }
            },
            Address::V6 => {},
        }
        i = i + 1;
    }
    match best {
        Some(octets) => Some(dotted_text(octets)),
        None => None,
    }
}

/// Picks the address to announce. Without a list of interfaces there is none.
pub fn get_network_ip(interfaces: Option<&Vec<Interface>>) -> (r: Option<String>)
    ensures
        match interfaces {
            None => r is None,
            Some(list) => match r {
                Some(text) => match announced(lower_case_names(interface_models(list@))) {
                    Some(octets) => text@ == dotted(octets),
                    None => false,
                },
                None => announced(lower_case_names(interface_models(list@))) is None,
            },
        },
        match interfaces {
            None => r is None,
            Some(list) => forall|i: int|
                0 <= i < list.len() && is_ascii_chars((#[trigger] list[i]).name@) ==> lower_case(
                    list[i].name@,
                ) == ascii_lower_case(list[i].name@),
        },
{
    match interfaces {
        None => None,
        Some(list) => {
            let mut lowered: Vec<Interface> = Vec::new();
            let mut i: usize = 0;
            while i < list.len()
                invariant
                    i <= list.len(),
                    lowered.len() == i,
                    forall|j: int|
                        0 <= j < i ==> (#[trigger] lowered[j]).name@ == lower_case(list[j].name@)
                            && lowered[j].address == list[j].address,
                    forall|j: int|
                        0 <= j < i && is_ascii_chars((#[trigger] list[j]).name@) ==> lower_case(
                            list[j].name@,
                        ) == ascii_lower_case(list[j].name@),
                decreases list.len() - i,
            {
                let name = to_lower_case(list[i].name.as_str());
                lowered.push(Interface { name, address: list[i].address });
                i = i + 1;
            }
            assert(interface_models(lowered@) =~= lower_case_names(interface_models(list@)));
            announced_address(&lowered)
        },
    }
}

// ---------------------------------------------------------------------------
// Laws
// ---------------------------------------------------------------------------

proof fn lemma_first_usable(interfaces: Seq<InterfaceModel>, private_only: bool)
    ensures
        match first_usable(interfaces, private_only) {
            Some(octets) => (private_only ==> is_private(octets)) && exists|i: int|
                0 <= i < interfaces.len() && is_usable(#[trigger] interfaces[i]) && interfaces[i].1
                    == Address::V4(octets),
            None => forall|i: int|
                0 <= i < interfaces.len() && is_usable(#[trigger] interfaces[i]) ==> private_only
                    && match interfaces[i].1 {
                    Address::V4(octets) => !is_private(octets),
                    Address::V6 => false,
                },
        },
    decreases interfaces.len(),
{
    if interfaces.len() > 0 {
        let rest = interfaces.drop_first();
        lemma_first_usable(rest, private_only);
        if first_usable(rest, private_only) is Some {
            let octets = first_usable(rest, private_only)->0;
            let i = choose|i: int|
                0 <= i < rest.len() && is_usable(#[trigger] rest[i]) && rest[i].1 == Address::V4(
                    octets,
                );
            assert(interfaces[i + 1] == rest[i]);
            assert(is_usable(interfaces[i + 1]));
        }
        assert(first_usable(interfaces, private_only) is Some ==> first_usable(
            interfaces,
            private_only,
        ) == first_usable(rest, private_only) || is_usable(interfaces[0]));
        assert forall|i: int|
            first_usable(interfaces, private_only) is None && 0 <= i < interfaces.len()
                && is_usable(#[trigger] interfaces[i]) implies private_only && match interfaces[i].1 {
            Address::V4(octets) => !is_private(octets),
            Address::V6 => false,
        } by {
            if i > 0 {
                assert(rest[i - 1] == interfaces[i]);
            }
        }
    }
}

/// The announced address belongs to a usable interface; it is private whenever some usable
/// interface has a private address; and there is one whenever some interface is usable.
pub proof fn announced_address_is_usable(interfaces: Seq<InterfaceModel>)
    ensures
        match announced(interfaces) {
            Some(octets) => {
                &&& exists|i: int|
                    0 <= i < interfaces.len() && is_usable(#[trigger] interfaces[i])
                        && interfaces[i].1 == Address::V4(octets)
                &&& !is_private(octets) ==> forall|i: int|
                    0 <= i < interfaces.len() && is_usable(#[trigger] interfaces[i])
                        ==> match interfaces[i].1 {
                        Address::V4(other) => !is_private(other),
                        Address::V6 => false,
                    }
            },
            None => forall|i: int|
                0 <= i < interfaces.len() ==> !is_usable(#[trigger] interfaces[i]),
        },
{
    lemma_first_usable(interfaces, true);
    lemma_first_usable(interfaces, false);
}

/// Neither a loopback address nor a link-local one is ever announced.
pub proof fn no_unroutable_address_is_announced(interfaces: Seq<InterfaceModel>)
    ensures
        match announced(interfaces) {
            Some(octets) => !is_loopback(octets) && !is_link_local(octets),
            None => true,
        },
{
    announced_address_is_usable(interfaces);
}

/// A list of interfaces stands for their names and addresses, one by one; with lower case names only
/// the names change.
pub proof fn interfaces_stand_for_their_parts(
    interfaces: Seq<Interface>,
    models: Seq<InterfaceModel>,
    i: int,
)
    ensures
        interface_models(interfaces).len() == interfaces.len(),
        0 <= i < interfaces.len() ==> interface_models(interfaces)[i] == (
            interfaces[i].name@,
            interfaces[i].address,
        ),
        lower_case_names(models).len() == models.len(),
        0 <= i < models.len() ==> lower_case_names(models)[i] == (
            lower_case(models[i].0),
            models[i].1,
        ),
{
}

/// In an ASCII text the 26 capital letters become the small ones 32 code points above them, and
/// nothing else changes.
pub proof fn only_capital_letters_change(s: Seq<char>, i: int)
    requires
        0 <= i < s.len(),
    ensures
        ascii_lower_case(s).len() == s.len(),
        65 <= s[i] as u32 <= 90 ==> ascii_lower_case(s)[i] as u32 == s[i] as u32 + 32,
        !(65 <= s[i] as u32 <= 90) ==> ascii_lower_case(s)[i] == s[i],
{
    lemma_small_letter(s[i]);
}

proof fn lemma_small_letter(c: char)
    ensures
        65 <= c as u32 <= 90 ==> 'A' <= c && c <= 'Z' && ((c as u32 + 32) as char) as u32 == c as u32
            + 32,
        !(65 <= c as u32 <= 90) ==> !('A' <= c && c <= 'Z'),
{
}

/// Interfaces of containers, virtual machines and tunnels are known by a part of their names.
pub proof fn virtual_names_hold_a_known_part(name: Seq<char>)
    ensures
        is_virtual_name(name) <==> {
            ||| exists|a: Seq<char>, b: Seq<char>| name == #[trigger] (a + "docker"@ + b)
            ||| exists|a: Seq<char>, b: Seq<char>| name == #[trigger] (a + "veth"@ + b)
            ||| exists|a: Seq<char>, b: Seq<char>| name == #[trigger] (a + "br-"@ + b)
            ||| exists|a: Seq<char>, b: Seq<char>| name == #[trigger] (a + "vbox"@ + b)
            ||| exists|a: Seq<char>, b: Seq<char>| name == #[trigger] (a + "vmnet"@ + b)
            ||| exists|a: Seq<char>, b: Seq<char>| name == #[trigger] (a + "tun"@ + b)
            ||| exists|a: Seq<char>, b: Seq<char>| name == #[trigger] (a + "tap"@ + b)
            ||| exists|a: Seq<char>, b: Seq<char>| name == #[trigger] (a + "utun"@ + b)
        },
{
    part_stands_between(name, "docker"@);
    part_stands_between(name, "veth"@);
    part_stands_between(name, "br-"@);
    part_stands_between(name, "vbox"@);
    part_stands_between(name, "vmnet"@);
    part_stands_between(name, "tun"@);
    part_stands_between(name, "tap"@);
    part_stands_between(name, "utun"@);
}

/// An IPv4 address as a number.
pub open spec fn address_number(octets: [u8; 4]) -> int {
    octets[0] * 16777216 + octets[1] * 65536 + octets[2] * 256 + octets[3]
}

/// The kinds of addresses are runs of numbers: from 127.0.0.0 to 127.255.255.255, from 169.254.0.0
/// to 169.254.255.255, and three private ones.
pub proof fn kinds_of_addresses_are_ranges(octets: [u8; 4])
    ensures
        is_loopback(octets) <==> 2130706432 <= address_number(octets) <= 2147483647,
        is_link_local(octets) <==> 2851995648 <= address_number(octets) <= 2852061183,
        is_private(octets) <==> {
            ||| 167772160 <= address_number(octets) <= 184549375
            ||| 2886729728 <= address_number(octets) <= 2887778303
            ||| 3232235520 <= address_number(octets) <= 3232301055
        },
{
}

/// An interface is usable if and only if it has an IPv4 address that is neither a loopback nor a
/// link-local one, and a name that is not virtual.
pub proof fn usable_interfaces_are_these(name: Seq<char>, octets: [u8; 4])
    ensures
        !is_usable((name, Address::V6)),
        is_usable((name, Address::V4(octets))) <==> !is_loopback(octets) && !is_link_local(octets)
            && !is_virtual_name(name),
{
}

proof fn lemma_first_index(interfaces: Seq<InterfaceModel>, private_only: bool) -> (i: int)
    ensures
        match first_usable(interfaces, private_only) {
            Some(octets) => {
                &&& 0 <= i < interfaces.len()
                &&& is_usable(interfaces[i])
                &&& interfaces[i].1 == Address::V4(octets)
                &&& private_only ==> is_private(octets)
                &&& forall|j: int|
                    0 <= j < i && is_usable(#[trigger] interfaces[j]) ==> private_only
                        && !has_private_address(interfaces[j])
            },
            None => forall|j: int|
                0 <= j < interfaces.len() && is_usable(#[trigger] interfaces[j]) ==> private_only
                    && !has_private_address(interfaces[j]),
        },
    decreases interfaces.len(),
{
    if interfaces.len() == 0 {
        0
    } else {
        let rest = interfaces.drop_first();
        let k = lemma_first_index(rest, private_only);
        assert forall|j: int| 0 < j < interfaces.len() implies #[trigger] interfaces[j] == rest[j
            - 1] by {}
        let here = is_usable(interfaces[0]) && (private_only ==> has_private_address(interfaces[0]));
        if here {
            0
        } else {
            assert(first_usable(interfaces, private_only) == first_usable(rest, private_only));
            k + 1
        }
    }
}

/// Whether an interface has a private address.
pub open spec fn has_private_address(interface: InterfaceModel) -> bool {
    match interface.1 {
        Address::V4(octets) => is_private(octets),
        Address::V6 => false,
    }
}

/// The announced address is that of the first usable interface with a private address; where there
/// is none, that of the first usable interface; and where there is none of these either, there is
/// no address.
pub proof fn first_private_address_is_announced(interfaces: Seq<InterfaceModel>, i: int)
    requires
        0 <= i < interfaces.len(),
        is_usable(interfaces[i]),
        forall|j: int|
            0 <= j < i && is_usable(#[trigger] interfaces[j]) ==> has_private_address(interfaces[i])
                && !has_private_address(interfaces[j]),
        !has_private_address(interfaces[i]) ==> forall|j: int|
            0 <= j < interfaces.len() && is_usable(#[trigger] interfaces[j])
                ==> !has_private_address(interfaces[j]),
    ensures
        announced(interfaces) is Some,
        interfaces[i].1 == Address::V4(announced(interfaces)->0),
{
    let p = lemma_first_index(interfaces, true);
    let q = lemma_first_index(interfaces, false);
    if has_private_address(interfaces[i]) {
        assert(first_usable(interfaces, true) is Some);
        if p < i {
            assert(is_usable(interfaces[p]));
        }
        assert(p == i);
    } else {
        if first_usable(interfaces, true) is Some {
            assert(is_usable(interfaces[p]));
        }
        assert(first_usable(interfaces, false) is Some);
        if q < i {
            assert(is_usable(interfaces[q]));
        }
        assert(q == i);
    }
}

/// Where no interface is usable, no address is announced.
pub proof fn without_usable_interface_nothing_is_announced(interfaces: Seq<InterfaceModel>)
    requires
        forall|i: int| 0 <= i < interfaces.len() ==> !is_usable(#[trigger] interfaces[i]),
    ensures
        announced(interfaces) is None,
{
    announced_address_is_usable(interfaces);
}

/// An address is written as its four octets in decimal, in order, with dots between them.
pub proof fn dotted_address_has_four_numbers(octets: [u8; 4])
    ensures
        split(dotted(octets), '.') == seq![
            decimal(octets[0] as nat),
            decimal(octets[1] as nat),
            decimal(octets[2] as nat),
            decimal(octets[3] as nat),
        ],
{
    reveal_strlit(".");
    assert("."@ =~= seq!['.']);
    let a = decimal(octets[0] as nat);
    let b = decimal(octets[1] as nat);
    let c = decimal(octets[2] as nat);
    let d = decimal(octets[3] as nat);
    lemma_decimal_is_one_piece(octets[0] as nat);
    lemma_decimal_is_one_piece(octets[1] as nat);
    lemma_decimal_is_one_piece(octets[2] as nat);
    lemma_decimal_is_one_piece(octets[3] as nat);
    pieces_add_up(a, '.', b);
    pieces_add_up(a + seq!['.'] + b, '.', c);
    pieces_add_up(a + seq!['.'] + b + seq!['.'] + c, '.', d);
    assert(split(dotted(octets), '.') =~= seq![a, b, c, d]);
}

proof fn lemma_decimal_is_one_piece(n: nat)
    ensures
        split(decimal(n), '.') == seq![decimal(n)],
{
    lemma_decimal_digits(n);
    if decimal(n).contains('.') {
        let i = choose|i: int| 0 <= i < decimal(n).len() && decimal(n)[i] == '.';
        assert(is_digit(decimal(n)[i]));
    }
    text_without_separator_is_one_piece(decimal(n), '.');
}

} // verus!
