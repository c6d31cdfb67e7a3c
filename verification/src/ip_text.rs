//! Internet addresses and how they are written.
use vstd::prelude::*;
use vstd::string::*;

use crate::numbers::{
    decimal, hexadecimal, number_value, optional_number, parse_number, push_decimal,
    push_hexadecimal,
};
use crate::text::{
    characters, copy_range, joined, split_at_first, split_first, texts_part_at_the_first_separator,
};

verus! {

/// An address of either family: four octets, or eight groups of sixteen bits.
#[derive(Clone, Copy, Debug, PartialEq, Eq)]
pub enum IpAddress {
    V4([u8; 4]),
    V6([u16; 8]),
}

/// The number of zero groups that stand in a row from an index on.
pub open spec fn zeros_from(groups: Seq<u16>, from: int) -> nat
    decreases groups.len() - from,
{
    if 0 <= from < groups.len() && groups[from] == 0 {
        1 + zeros_from(groups, from + 1)
    } else {
        0
    }
}

/// Where the longest row of zero groups starts among the first `until` indices, and the first
/// such row where several are as long.
pub open spec fn longest_zeros(groups: Seq<u16>, until: int) -> int
    decreases until,
{
    if until <= 1 {
        0
    } else {
        let before = longest_zeros(groups, until - 1);
        if zeros_from(groups, until - 1) > zeros_from(groups, before) {
            until - 1
        } else {
            before
        }
    }
}

/// Four octets in decimal, with dots between them.
pub open spec fn ipv4_text(octets: Seq<u8>) -> Seq<char> {
    decimal(octets[0] as nat) + "."@ + decimal(octets[1] as nat) + "."@ + decimal(octets[2] as nat)
        + "."@ + decimal(octets[3] as nat)
}

/// Groups in hexadecimal, with colons between them.
pub open spec fn groups_text(groups: Seq<u16>) -> Seq<char>
    decreases groups.len(),
{
    if groups.len() == 0 {
        Seq::empty()
    } else if groups.len() == 1 {
        hexadecimal(groups[0] as nat)
    } else {
        groups_text(groups.drop_last()) + ":"@ + hexadecimal(groups.last() as nat)
    }
}

/// An address of the newer family that carries one of the older.
pub open spec fn carries_ipv4(groups: Seq<u16>) -> bool {
    &&& groups[0] == 0
    &&& groups[1] == 0
    &&& groups[2] == 0
    &&& groups[3] == 0
    &&& groups[4] == 0
    &&& groups[5] == 0xFFFF
}

/// The octets of the address that the last two groups carry.
pub open spec fn carried_octets(groups: Seq<u16>) -> Seq<u8> {
    seq![
        (groups[6] as int / 256) as u8,
        (groups[6] as int % 256) as u8,
        (groups[7] as int / 256) as u8,
        (groups[7] as int % 256) as u8,
    ]
}

/// Eight groups, with the longest row of at least two zero groups written as `::`.
pub open spec fn ipv6_text(groups: Seq<u16>) -> Seq<char> {
    if carries_ipv4(groups) {
        "::ffff:"@ + ipv4_text(carried_octets(groups))
    } else {
        let start = longest_zeros(groups, groups.len() as int);
        let count = zeros_from(groups, start);
        if count > 1 {
            groups_text(groups.take(start)) + "::"@ + groups_text(groups.skip(start + count))
        } else {
            groups_text(groups)
        }
    }
}

/// How an address is written.
pub open spec fn ip_text(address: IpAddress) -> Seq<char> {
    match address {
        IpAddress::V4(octets) => ipv4_text(octets@),
        IpAddress::V6(groups) => ipv6_text(groups@),
    }
}

/// An address that only reaches this machine.
pub open spec fn is_loopback(address: IpAddress) -> bool {
    match address {
        IpAddress::V4(octets) => octets@[0] == 127,
        IpAddress::V6(groups) => groups@ =~= seq![0u16, 0, 0, 0, 0, 0, 0, 1],
    }
}

fn push_ipv4(text: &mut String, first: u8, second: u8, third: u8, fourth: u8)
    ensures
        final(text)@ == old(text)@ + ipv4_text(seq![first, second, third, fourth]),
{
    let ghost before = text@;
    push_decimal(text, first as u64);
    text.append(".");
    push_decimal(text, second as u64);
    text.append(".");
    push_decimal(text, third as u64);
    text.append(".");
    push_decimal(text, fourth as u64);
    proof {
        assert(text@ =~= before + ipv4_text(seq![first, second, third, fourth]));
    }
}

fn count_zeros(groups: &[u16; 8], from: usize) -> (result: usize)
    requires
        from <= 8,
    ensures
        result == zeros_from(groups@, from as int),
        result <= 8 - from,
    decreases 8 - from,
{
    if from < 8 && groups[from] == 0 {
        1 + count_zeros(groups, from + 1)
    } else {
        0
    }
}

fn push_groups(text: &mut String, groups: &[u16; 8], from: usize, to: usize)
    requires
        from <= to <= 8,
    ensures
        final(text)@ == old(text)@ + groups_text(groups@.subrange(from as int, to as int)),
{
    let ghost before = text@;
    let mut index: usize = from;
    proof {
        assert(groups@.subrange(from as int, from as int).len() == 0);
        assert(before + groups_text(groups@.subrange(from as int, from as int)) =~= before);
    }
    while index < to
        invariant
            from <= index <= to <= 8,
            text@ == before + groups_text(groups@.subrange(from as int, index as int)),
        decreases to - index,
    {
        let ghost longer = groups@.subrange(from as int, index + 1);
        proof {
            assert(longer.drop_last() =~= groups@.subrange(from as int, index as int));
            assert(longer.last() == groups@[index as int]);
        }
        let ghost earlier = text@;
        if index > from {
            text.append(":");
        }
        push_hexadecimal(text, groups[index]);
        proof {
            if index > from {
                assert(text@ =~= before + (groups_text(longer.drop_last()) + ":"@ + hexadecimal(
                    longer.last() as nat,
                )));
            } else {
                assert(longer.len() == 1);
                assert(groups_text(longer.drop_last()) =~= Seq::<char>::empty());
                assert(earlier =~= before);
            }
        }
        index += 1;
    }
}

/// Writes an address.
pub fn write_ip(address: &IpAddress) -> (result: String)
    ensures
        result@ == ip_text(*address),
{
    let mut text = String::new();
    match address {
        IpAddress::V4(octets) => {
            push_ipv4(&mut text, octets[0], octets[1], octets[2], octets[3]);
            proof {
                assert(octets@ =~= seq![octets@[0], octets@[1], octets@[2], octets@[3]]);
                assert(text@ =~= ipv4_text(octets@));
            }
        },
        IpAddress::V6(groups) => {
            if groups[0] == 0 && groups[1] == 0 && groups[2] == 0 && groups[3] == 0 && groups[4]
                == 0 && groups[5] == 0xFFFF {
                text.append("::ffff:");
                push_ipv4(
                    &mut text,
                    (groups[6] / 256) as u8,
                    (groups[6] % 256) as u8,
                    (groups[7] / 256) as u8,
                    (groups[7] % 256) as u8,
                );
                proof {
                    assert(text@ =~= "::ffff:"@ + ipv4_text(carried_octets(groups@)));
                }
            } else {
                let mut start: usize = 0;
                let mut index: usize = 1;
                while index < 8
                    invariant
                        1 <= index <= 8,
                        start < 8,
                        start == longest_zeros(groups@, index as int),
                    decreases 8 - index,
                {
                    if count_zeros(groups, index) > count_zeros(groups, start) {
                        start = index;
                    }
                    index += 1;
                }
                let count: usize = count_zeros(groups, start);
                if count > 1 {
                    push_groups(&mut text, groups, 0, start);
                    text.append("::");
                    push_groups(&mut text, groups, start + count, 8);
                    proof {
                        assert(groups@.subrange(0, start as int) =~= groups@.take(start as int));
                        assert(groups@.subrange(start + count, 8) =~= groups@.skip(start + count));
                        assert(text@ =~= groups_text(groups@.take(start as int)) + "::"@
                            + groups_text(groups@.skip(start + count)));
                    }
                } else {
                    push_groups(&mut text, groups, 0, 8);
                    proof {
                        assert(groups@.subrange(0, 8) =~= groups@);
                        assert(text@ =~= groups_text(groups@));
                    }
                }
            }
        },
    }
    text
}

/// Whether an address only reaches this machine.
pub fn loopback(address: &IpAddress) -> (result: bool)
    ensures
        result == is_loopback(*address),
{
    match address {
        IpAddress::V4(octets) => octets[0] == 127,
        IpAddress::V6(groups) => {
            let result = groups[0] == 0 && groups[1] == 0 && groups[2] == 0 && groups[3] == 0
                && groups[4] == 0 && groups[5] == 0 && groups[6] == 0 && groups[7] == 1;
            proof {
                if result {
                    assert(groups@ =~= seq![0u16, 0, 0, 0, 0, 0, 0, 1]);
                } else if groups@ =~= seq![0u16, 0, 0, 0, 0, 0, 0, 1] {
                    assert(groups@[0] == 0 && groups@[1] == 0 && groups@[2] == 0 && groups@[3] == 0
                        && groups@[4] == 0 && groups@[5] == 0 && groups@[6] == 0 && groups@[7]
                        == 1);
                }
            }
            result
        },
    }
}

/// An address with a port; the scope tells links of the newer family apart and is zero
/// elsewhere.
#[derive(Clone, Copy, Debug, PartialEq, Eq)]
pub struct SocketAddress {
    pub ip: IpAddress,
    pub scope: u32,
    pub port: u16,
}

/// How an address with a port is written.
pub open spec fn socket_text(address: SocketAddress) -> Seq<char> {
    match address.ip {
        IpAddress::V4(_) => ip_text(address.ip) + ":"@ + decimal(address.port as nat),
        IpAddress::V6(_) => if address.scope == 0 {
            "["@ + ip_text(address.ip) + "]:"@ + decimal(address.port as nat)
        } else {
            "["@ + ip_text(address.ip) + "%"@ + decimal(address.scope as nat) + "]:"@ + decimal(
                address.port as nat,
            )
        },
    }
}

/// Writes an address with a port.
pub fn write_socket(address: &SocketAddress) -> (result: String)
    ensures
        result@ == socket_text(*address),
{
    let ip = write_ip(&address.ip);
    match address.ip {
        IpAddress::V4(_) => {
            let mut text = ip;
            text.append(":");
            push_decimal(&mut text, address.port as u64);
            text
        },
        IpAddress::V6(_) => {
            let mut text = "[".to_owned();
            text.append(ip.as_str());
            if address.scope != 0 {
                text.append("%");
                push_decimal(&mut text, address.scope as u64);
            }
            text.append("]:");
            push_decimal(&mut text, address.port as u64);
            text
        },
    }
}

/// The two groups that a word of the kernel's socket tables holds, lowest byte first.
pub open spec fn word_groups(word: nat) -> (u16, u16) {
    (
        ((word % 256) * 256 + (word / 256) % 256) as u16,
        (((word / 65536) % 256) * 256 + (word / 16777216) % 256) as u16,
    )
}

/// The four octets of such a word.
pub open spec fn word_octets(word: nat) -> Seq<u8> {
    seq![
        (word % 256) as u8,
        ((word / 256) % 256) as u8,
        ((word / 65536) % 256) as u8,
        ((word / 16777216) % 256) as u8,
    ]
}

/// The word that eight hexadecimal digits of a table entry write.
pub open spec fn table_word(address: Seq<char>, index: int) -> Option<nat> {
    number_value(address.subrange(index * 8, index * 8 + 8), 16, u32::MAX as nat)
}

/// The address text and port that an entry of the kernel's socket tables writes.
pub open spec fn local_address(value: Seq<char>, ipv6: bool) -> Option<(Seq<char>, u16)> {
    match split_first(value, ':') {
        None => None,
        Some((address, port)) => match number_value(port, 16, u16::MAX as nat) {
            None => None,
            Some(number) => if !ipv6 {
                match number_value(address, 16, u32::MAX as nat) {
                    Some(word) => Some((ipv4_text(word_octets(word)), number as u16)),
                    None => None,
                }
            } else if address.len() != 32 {
                None
            } else {
                match (
                    table_word(address, 0),
                    table_word(address, 1),
                    table_word(address, 2),
                    table_word(address, 3),
                ) {
                    (Some(first), Some(second), Some(third), Some(fourth)) => Some(
                        (
                            ipv6_text(
                                seq![
                                    word_groups(first).0,
                                    word_groups(first).1,
                                    word_groups(second).0,
                                    word_groups(second).1,
                                    word_groups(third).0,
                                    word_groups(third).1,
                                    word_groups(fourth).0,
                                    word_groups(fourth).1,
                                ],
                            ),
                            number as u16,
                        ),
                    ),
                    _ => None,
                }
            },
        },
    }
}

fn split_word(word: u64) -> (result: (u16, u16))
    requires
        word <= u32::MAX,
    ensures
        result == word_groups(word as nat),
{
    (
        ((word % 256) * 256 + (word / 256) % 256) as u16,
        (((word / 65536) % 256) * 256 + (word / 16777216) % 256) as u16,
    )
}

fn word_at(address: &Vec<char>, index: usize) -> (result: Option<u64>)
    requires
        address.len() == 32,
        index < 4,
    ensures
        optional_number(result) == table_word(address@, index as int),
        result matches Some(word) ==> word <= u32::MAX,
{
    let part = copy_range(address.as_slice(), index * 8, index * 8 + 8);
    let result = parse_number(part.as_slice(), 16, u32::MAX as u64);
    proof {
        assert(part@ == address@.subrange(index * 8, index * 8 + 8));
    }
    result
}

/// What a lookup in the kernel's socket tables gave, as text.
pub open spec fn address_text(value: Option<(String, u16)>) -> Option<(Seq<char>, u16)> {
    match value {
        Some((address, port)) => Some((address@, port)),
        None => None,
    }
}

/// Reads the local address of an entry of the kernel's socket tables.
pub fn parse_local_address(value: &str, ipv6: bool) -> (result: Option<(String, u16)>)
    ensures
        address_text(result) == local_address(value@, ipv6),
{
    let source = characters(value);
    let (address, port) = match split_at_first(source.as_slice(), ':') {
        Some(parts) => parts,
        None => {
            return None;
        },
    };
    let number = match parse_number(port.as_slice(), 16, u16::MAX as u64) {
        Some(number) => number as u16,
        None => {
            return None;
        },
    };
    if !ipv6 {
        let word = match parse_number(address.as_slice(), 16, u32::MAX as u64) {
            Some(word) => word,
            None => {
                return None;
            },
        };
        let octets: [u8; 4] = [
            (word % 256) as u8,
            ((word / 256) % 256) as u8,
            ((word / 65536) % 256) as u8,
            ((word / 16777216) % 256) as u8,
        ];
        proof {
            assert(octets@ =~= word_octets(word as nat));
        }
        return Some((write_ip(&IpAddress::V4(octets)), number));
    }
    if address.len() != 32 {
        return None;
    }
    match (
        word_at(&address, 0),
        word_at(&address, 1),
        word_at(&address, 2),
        word_at(&address, 3),
    ) {
        (Some(first), Some(second), Some(third), Some(fourth)) => {
            let (one, two) = split_word(first);
            let (three, four) = split_word(second);
            let (five, six) = split_word(third);
            let (seven, eight) = split_word(fourth);
            let groups: [u16; 8] = [one, two, three, four, five, six, seven, eight];
            proof {
                assert(groups@ =~= seq![one, two, three, four, five, six, seven, eight]);
            }
            Some((write_ip(&IpAddress::V6(groups)), number))
        },
        _ => None,
    }
}

/// A word of the kernel's tables holds the octets of an address from its lowest byte up, and the
/// groups of the newer family are made of the same octets, two by two.
pub proof fn kernel_words_hold_octets_backwards(word: nat)
    requires
        word <= u32::MAX,
    ensures
        word_octets(word).len() == 4,
        word == word_octets(word)[0] + 0x100 * word_octets(word)[1] + 0x1_0000 * word_octets(
            word,
        )[2] + 0x100_0000 * word_octets(word)[3],
        word_groups(word).0 == 0x100 * word_octets(word)[0] + word_octets(word)[1],
        word_groups(word).1 == 0x100 * word_octets(word)[2] + word_octets(word)[3],
{
    let second = word / 256;
    let third = word / 65536;
    let fourth = word / 16777216;
    assert(third == second / 256);
    assert(fourth == third / 256);
    assert(fourth < 256);
}

/// An address of the older family is its four octets in decimal with points between them.
pub proof fn octets_are_written_in_order(octets: Seq<u8>)
    requires
        octets.len() == 4,
    ensures
        ipv4_text(octets) == joined(
            Seq::new(4, |i: int| decimal(octets[i] as nat)),
            "."@,
        ),
{
    let parts = Seq::new(4, |i: int| decimal(octets[i] as nat));
    reveal_with_fuel(joined, 5);
    assert(parts.drop_last().drop_last().drop_last()[0] == parts[0]);
    assert(joined(parts, "."@) =~= ipv4_text(octets));
}

/// Zeros are counted from a place on up to the first group that is not zero.
pub proof fn zeros_end_at_the_first_other_group(groups: Seq<u16>, from: int)
    requires
        0 <= from <= groups.len(),
    ensures
        from + zeros_from(groups, from) <= groups.len(),
        forall|i: int| from <= i < from + zeros_from(groups, from) ==> #[trigger] groups[i] == 0,
        from + zeros_from(groups, from) < groups.len() ==> groups[from + zeros_from(groups, from)]
            != 0,
    decreases groups.len() - from,
{
    if from < groups.len() && groups[from] == 0 {
        zeros_end_at_the_first_other_group(groups, from + 1);
    }
}

/// The zeros that are left out begin where most of them follow each other, at the first such
/// place.
pub proof fn the_longest_zeros_are_left_out(groups: Seq<u16>, until: int, other: int)
    requires
        0 < until <= groups.len(),
        0 <= other < until,
    ensures
        0 <= longest_zeros(groups, until) < until,
        zeros_from(groups, other) <= zeros_from(groups, longest_zeros(groups, until)),
        other < longest_zeros(groups, until) ==> zeros_from(groups, other) < zeros_from(
            groups,
            longest_zeros(groups, until),
        ),
    decreases until,
{
    if until > 1 {
        if other < until - 1 {
            the_longest_zeros_are_left_out(groups, until - 1, other);
        } else {
            the_longest_zeros_are_left_out(groups, until - 1, 0);
        }
    }
}

/// The number that eight hexadecimal digits of an address make, from the index on that counts
/// them off.
pub open spec fn eight_digits(address: Seq<char>, index: int) -> Option<nat> {
    number_value(address.subrange(8 * index, 8 * index + 8), 16, u32::MAX as nat)
}

/// Whether the word at an index of an address of eight digits each gives two groups.
pub open spec fn word_stands_at(address: Seq<char>, groups: Seq<u16>, index: int) -> bool {
    eight_digits(address, index) matches Some(word) && groups[2 * index] == word_groups(word).0
        && groups[2 * index + 1]
        == word_groups(word).1
}

/// The local address of a table line is its port in hexadecimal behind the first colon, and
/// before it one word for an address of the older family, or four words of eight digits each for
/// one of the newer; anything else is none.
pub proof fn local_addresses_stand_before_their_port(
    address: Seq<char>,
    port: Seq<char>,
    text: Seq<char>,
    number: u16,
)
    requires
        !address.contains(':'),
    ensures
        local_address(address + seq![':'] + port, false) == Some((text, number)) <==> number_value(
            port,
            16,
            u16::MAX as nat,
        ) == Some(number as nat) && (number_value(address, 16, u32::MAX as nat) matches Some(word)
            && text == ipv4_text(word_octets(word))),
        local_address(address + seq![':'] + port, true) == Some((text, number)) ==> number_value(
            port,
            16,
            u16::MAX as nat,
        ) == Some(number as nat) && address.len() == 32 && exists|groups: Seq<u16>|
            groups.len() == 8 && text == #[trigger] ipv6_text(groups) && forall|i: int|
                0 <= i < 4 ==> #[trigger] word_stands_at(address, groups, i),
        number_value(port, 16, u16::MAX as nat) == Some(number as nat) && address.len() == 32 && (
        forall|i: int|
            0 <= i < 4 ==> #[trigger] eight_digits(address, i) is Some) ==> local_address(
            address + seq![':'] + port,
            true,
        ) is Some,
        local_address(address, false) is None && local_address(address, true) is None,
{
    texts_part_at_the_first_separator(address, ':', port);
    assert(table_word(address, 0) == eight_digits(address, 0));
    assert(table_word(address, 1) == eight_digits(address, 1));
    assert(table_word(address, 2) == eight_digits(address, 2));
    assert(table_word(address, 3) == eight_digits(address, 3));
    if local_address(address + seq![':'] + port, true) == Some((text, number)) {
        let first = word_groups(table_word(address, 0)->0);
        let second = word_groups(table_word(address, 1)->0);
        let third = word_groups(table_word(address, 2)->0);
        let fourth = word_groups(table_word(address, 3)->0);
        let groups = seq![
            first.0,
            first.1,
            second.0,
            second.1,
            third.0,
            third.1,
            fourth.0,
            fourth.1,
        ];
        assert(text == ipv6_text(groups));
        assert forall|i: int| 0 <= i < 4 implies #[trigger] word_stands_at(address, groups, i) by {
            assert(i == 0 || i == 1 || i == 2 || i == 3);
            assert(table_word(address, i) is Some);
        }
    }
}

/// The groups of an address are written in hexadecimal with colons between them.
pub proof fn groups_are_written_in_order(groups: Seq<u16>)
    ensures
        groups_text(groups) == joined(
            Seq::new(groups.len(), |i: int| hexadecimal(groups[i] as nat)),
            ":"@,
        ),
    decreases groups.len(),
{
    let parts = Seq::new(groups.len(), |i: int| hexadecimal(groups[i] as nat));
    if groups.len() > 1 {
        let fewer = groups.drop_last();
        groups_are_written_in_order(fewer);
        assert(parts.drop_last() =~= Seq::new(
            fewer.len(),
            |i: int| hexadecimal(fewer[i] as nat),
        ));
        assert(joined(parts, ":"@) =~= groups_text(groups));
    }
}

/// An address that carries one of the older family is written as that one behind `::ffff:`;
/// any other leaves out the longest row of two or more zero groups, the first of several, and is
/// written in full where there is none.
pub proof fn zeros_are_left_out_once(groups: Seq<u16>, start: int, count: int)
    requires
        groups.len() == 8,
        0 <= start,
        0 <= count,
        start + count <= 8,
        forall|i: int| start <= i < start + count ==> #[trigger] groups[i] == 0,
        start + count < 8 ==> groups[start + count] != 0,
        start < 8,
        forall|j: int| 0 <= j < 8 ==> #[trigger] zeros_from(groups, j) <= count,
        forall|j: int| 0 <= j < start ==> #[trigger] zeros_from(groups, j) < count,
    ensures
        carries_ipv4(groups) ==> ipv6_text(groups) == "::ffff:"@ + ipv4_text(
            carried_octets(groups),
        ),
        !carries_ipv4(groups) && count >= 2 ==> ipv6_text(groups) == groups_text(groups.take(start))
            + "::"@ + groups_text(groups.skip(start + count)),
        !carries_ipv4(groups) && count < 2 ==> ipv6_text(groups) == groups_text(groups),
        carries_ipv4(groups) <==> groups.take(6) == seq![0u16, 0, 0, 0, 0, 0xFFFF],
        0x100 * carried_octets(groups)[0] + carried_octets(groups)[1] == groups[6],
        0x100 * carried_octets(groups)[2] + carried_octets(groups)[3] == groups[7],
{
    let found = longest_zeros(groups, 8);
    the_longest_zeros_are_left_out(groups, 8, start);
    zeros_end_at_the_first_other_group(groups, start);
    let here = zeros_from(groups, start) as int;
    if here < count {
        assert(groups[start + here] == 0);
    }
    if here > count {
        assert(groups[start + count] == 0);
    }
    assert(here == count);
    assert(zeros_from(groups, found) <= count);
    assert(found == start);
    let lead = groups.take(6);
    if carries_ipv4(groups) {
        assert(lead =~= seq![0u16, 0, 0, 0, 0, 0xFFFF]);
    }
    if lead == seq![0u16, 0, 0, 0, 0, 0xFFFF] {
        assert(lead[0] == 0 && lead[1] == 0 && lead[2] == 0 && lead[3] == 0 && lead[4] == 0
            && lead[5] == 0xFFFF);
        assert(groups[0] == lead[0] && groups[1] == lead[1] && groups[2] == lead[2] && groups[3]
            == lead[3] && groups[4] == lead[4] && groups[5] == lead[5]);
    }
}

/// A socket is written as its address and its port, with brackets round an address of the newer
/// family and its scope, if it has one, behind a percent sign in them.
pub proof fn sockets_are_written_with_their_port(address: SocketAddress)
    ensures
        match address.ip {
            IpAddress::V4(octets) => socket_text(address) == ipv4_text(octets@) + ":"@ + decimal(
                address.port as nat,
            ),
            IpAddress::V6(groups) => socket_text(address) == "["@ + ipv6_text(groups@) + (
            if address.scope == 0 {
                Seq::empty()
            } else {
                "%"@ + decimal(address.scope as nat)
            }) + "]:"@ + decimal(address.port as nat),
        },
{
    if let IpAddress::V6(groups) = address.ip {
        let start = "["@ + ipv6_text(groups@);
        let scope = decimal(address.scope as nat);
        assert(start + Seq::<char>::empty() =~= start);
        assert(start + ("%"@ + scope) =~= start + "%"@ + scope);
    }
}

} // verus!
