//! The status snapshot and the line that reports it.
//!
//! A report is one line: the word `update`, a space, a JSON object with the
//! snapshot's fifteen members in a fixed order, and a newline. The contracts
//! here give that line byte for byte.
use crate::numeral::{is_numeral, lemma_numeral_bytes, Numeral};
use crate::text::{decimal, lemma_decimal_is_digits, lemma_decimal_is_injective, push_decimal};
use vstd::prelude::*;
use vstd::string::*;

verus! {

pub const QUOTE: u8 = 0x22;

pub const COMMA: u8 = 0x2c;

pub const COLON: u8 = 0x3a;

pub const OPEN_BRACE: u8 = 0x7b;

pub const CLOSE_BRACE: u8 = 0x7d;

pub const NEWLINE: u8 = 0x0a;

/// One member of an object: the key in quotes, a colon, the value.
pub open spec fn member_text(key: Seq<u8>, value: Seq<u8>) -> Seq<u8> {
    seq![QUOTE] + key + seq![QUOTE, COLON] + value
}

/// The members in order, with a comma between neighbours.
pub open spec fn members_text(members: Seq<(Seq<u8>, Seq<u8>)>) -> Seq<u8>
    decreases members.len(),
{
    if members.len() == 0 {
        Seq::empty()
    } else if members.len() == 1 {
        member_text(members[0].0, members[0].1)
    } else {
        members_text(members.drop_last()) + seq![COMMA] + member_text(
            members.last().0,
            members.last().1,
        )
    }
}

/// A JSON object without any white space, from its members as pairs of key
/// and value text.
pub open spec fn object_text(members: Seq<(Seq<u8>, Seq<u8>)>) -> Seq<u8> {
    seq![OPEN_BRACE] + members_text(members) + seq![CLOSE_BRACE]
}

/// `true` or `false`, as JSON writes them.
pub open spec fn boolean_text(value: bool) -> Seq<u8> {
    if value {
        "true".spec_bytes()
    } else {
        "false".spec_bytes()
    }
}

/// The machine at one instant. Memory and swap are in KiB, disk in MiB, the
/// network rates in bytes per second, the network totals in bytes.
#[derive(Debug, PartialEq, Eq)]
pub struct StatusSnapshot {
    pub uptime: u64,
    pub load: Numeral,
    pub memory_total: u64,
    pub memory_used: u64,
    pub swap_total: u64,
    pub swap_used: u64,
    pub hdd_total: u64,
    pub hdd_used: u64,
    pub cpu: Numeral,
    pub network_rx: u64,
    pub network_tx: u64,
    pub network_in: u64,
    pub network_out: u64,
    pub online4: bool,
    pub online6: bool,
}

/// Writes an object member by member.
struct ObjectWriter {
    out: Vec<u8>,
    started: bool,
    members: Ghost<Seq<(Seq<u8>, Seq<u8>)>>,
}

impl ObjectWriter {
    spec fn consistent(self) -> bool {
        &&& self.out@ == seq![OPEN_BRACE] + members_text(self.members@)
        &&& self.started == (self.members@.len() > 0)
    }

    fn new() -> (writer: ObjectWriter)
        ensures
            writer.consistent(),
            writer.members@ == Seq::<(Seq<u8>, Seq<u8>)>::empty(),
    {
        let mut out: Vec<u8> = Vec::new();
        out.push(OPEN_BRACE);
        assert(out@ =~= seq![OPEN_BRACE] + members_text(Seq::empty()));
        ObjectWriter { out, started: false, members: Ghost(Seq::empty()) }
    }

    fn member(&mut self, key: &str, value: &[u8])
        requires
            old(self).consistent(),
        ensures
            final(self).consistent(),
            final(self).members@ == old(self).members@.push((key.spec_bytes(), value@)),
    {
        let ghost before = self.members@;
        let ghost after = before.push((key.spec_bytes(), value@));
        if self.started {
            self.out.push(COMMA);
        }
        self.out.push(QUOTE);
        self.out.extend_from_slice(key.as_bytes());
        self.out.push(QUOTE);
        self.out.push(COLON);
        self.out.extend_from_slice(value);
        self.started = true;
        self.members = Ghost(after);
        proof {
            assert(after.drop_last() =~= before);
            assert(self.out@ =~= seq![OPEN_BRACE] + members_text(after));
        }
    }

    fn number(&mut self, key: &str, value: u64)
        requires
            old(self).consistent(),
        ensures
            final(self).consistent(),
            final(self).members@ == old(self).members@.push(
                (key.spec_bytes(), decimal(value as nat)),
            ),
    {
        let mut digits: Vec<u8> = Vec::new();
        push_decimal(&mut digits, value);
        assert(digits@ =~= decimal(value as nat));
        self.member(key, digits.as_slice());
    }

    fn boolean(&mut self, key: &str, value: bool)
        requires
            old(self).consistent(),
        ensures
            final(self).consistent(),
            final(self).members@ == old(self).members@.push(
                (key.spec_bytes(), boolean_text(value)),
            ),
    {
        if value {
            self.member(key, "true".as_bytes());
        } else {
            self.member(key, "false".as_bytes());
        }
    }

    fn finish(self) -> (text: Vec<u8>)
        requires
            self.consistent(),
        ensures
            text@ == object_text(self.members@),
    {
        let mut out = self.out;
        out.push(CLOSE_BRACE);
        out
    }
}

impl StatusSnapshot {
    /// The fifteen members, each a key and the text of its value, in the
    /// order in which the line carries them.
    pub open spec fn members(self) -> Seq<(Seq<u8>, Seq<u8>)> {
        seq![
            ("uptime".spec_bytes(), decimal(self.uptime as nat)),
            ("load".spec_bytes(), self.load@),
            ("memory_total".spec_bytes(), decimal(self.memory_total as nat)),
            ("memory_used".spec_bytes(), decimal(self.memory_used as nat)),
            ("swap_total".spec_bytes(), decimal(self.swap_total as nat)),
            ("swap_used".spec_bytes(), decimal(self.swap_used as nat)),
            ("hdd_total".spec_bytes(), decimal(self.hdd_total as nat)),
            ("hdd_used".spec_bytes(), decimal(self.hdd_used as nat)),
            ("cpu".spec_bytes(), self.cpu@),
            ("network_rx".spec_bytes(), decimal(self.network_rx as nat)),
            ("network_tx".spec_bytes(), decimal(self.network_tx as nat)),
            ("network_in".spec_bytes(), decimal(self.network_in as nat)),
            ("network_out".spec_bytes(), decimal(self.network_out as nat)),
            ("online4".spec_bytes(), boolean_text(self.online4)),
            ("online6".spec_bytes(), boolean_text(self.online6)),
        ]
    }

    /// The snapshot as a JSON object.
    pub open spec fn json_text(self) -> Seq<u8> {
        object_text(self.members())
    }

    /// The report line: the command word, the object, a newline.
    pub open spec fn line_text(self) -> Seq<u8> {
        "update ".spec_bytes() + self.json_text() + seq![NEWLINE]
    }

    /// Puts the readings of one cycle where they belong. Memory comes as
    /// (total, used, swap total, swap used), disk as (total, used), the
    /// network's speed as (received, sent) per second, and its traffic as
    /// (received, sent) in all.
    pub fn from_readings(
        uptime: u64,
        load: Numeral,
        memory: (u64, u64, u64, u64),
        hdd: (u64, u64),
        cpu: Numeral,
        speed: (u64, u64),
        traffic: (u64, u64),
        online4: bool,
        online6: bool,
    ) -> (snapshot: StatusSnapshot)
        ensures
            snapshot.uptime == uptime,
            snapshot.load@ == load@,
            snapshot.memory_total == memory.0,
            snapshot.memory_used == memory.1,
            snapshot.swap_total == memory.2,
            snapshot.swap_used == memory.3,
            snapshot.hdd_total == hdd.0,
            snapshot.hdd_used == hdd.1,
            snapshot.cpu@ == cpu@,
            snapshot.network_rx == speed.0,
            snapshot.network_tx == speed.1,
            snapshot.network_in == traffic.0,
            snapshot.network_out == traffic.1,
            snapshot.online4 == online4,
            snapshot.online6 == online6,
    {
        StatusSnapshot {
            uptime,
            load,
            memory_total: memory.0,
            memory_used: memory.1,
            swap_total: memory.2,
            swap_used: memory.3,
            hdd_total: hdd.0,
            hdd_used: hdd.1,
            cpu,
            network_rx: speed.0,
            network_tx: speed.1,
            network_in: traffic.0,
            network_out: traffic.1,
            online4,
            online6,
        }
    }

    /// Encodes the snapshot as a JSON object. The snapshot is valid, as every
    /// snapshot is that can be handed in.
    pub fn to_json(&self) -> (json: Vec<u8>)
        ensures
            json@ == self.json_text(),
            self.valid(),
    {
        let mut writer = ObjectWriter::new();
        writer.number("uptime", self.uptime);
        writer.member("load", self.load.as_bytes());
        writer.number("memory_total", self.memory_total);
        writer.number("memory_used", self.memory_used);
        writer.number("swap_total", self.swap_total);
        writer.number("swap_used", self.swap_used);
        writer.number("hdd_total", self.hdd_total);
        writer.number("hdd_used", self.hdd_used);
        writer.member("cpu", self.cpu.as_bytes());
        writer.number("network_rx", self.network_rx);
        writer.number("network_tx", self.network_tx);
        writer.number("network_in", self.network_in);
        writer.number("network_out", self.network_out);
        writer.boolean("online4", self.online4);
        writer.boolean("online6", self.online6);
        assert(writer.members@ =~= self.members());
        writer.finish()
    }

    /// The line that reports the snapshot, ready to be written in one piece.
    /// It ends in a newline and holds no other.
    pub fn update_line(&self) -> (line: Vec<u8>)
        ensures
            line@ == self.line_text(),
            line@.len() > 0 && line@.last() == NEWLINE,
            free_of(line@.drop_last(), NEWLINE),
    {
        let json = self.to_json();
        proof {
            self.lemma_line_is_one_line();
        }
        let mut line: Vec<u8> = Vec::new();
        line.extend_from_slice("update ".as_bytes());
        line.extend_from_slice(json.as_slice());
        line.push(NEWLINE);
        assert(line@ =~= self.line_text());
        line
    }
}

/// No byte of `s` is `b`.
pub open spec fn free_of(s: Seq<u8>, b: u8) -> bool {
    forall|i: int| 0 <= i < s.len() ==> #[trigger] s[i] != b
}

/// A text that ends right after a colon and goes on with a value that holds
/// none can be cut in one place only.
proof fn lemma_cut_after_colon(
    front: Seq<u8>,
    value: Seq<u8>,
    other_front: Seq<u8>,
    other_value: Seq<u8>,
)
    requires
        front + value == other_front + other_value,
        front.len() > 0 && front.last() == COLON,
        other_front.len() > 0 && other_front.last() == COLON,
        free_of(value, COLON),
        free_of(other_value, COLON),
    ensures
        front == other_front,
        value == other_value,
{
    let text = front + value;
    let other = other_front + other_value;
    assert(text.len() == front.len() + value.len());
    assert(other.len() == other_front.len() + other_value.len());
    if value.len() < other_value.len() {
        let j = front.len() - 1;
        assert(text[j] == front[j]);
        assert(other[j] == other_value[j - other_front.len()]);
        assert(false);
    }
    if other_value.len() < value.len() {
        let j = other_front.len() - 1;
        assert(other[j] == other_front[j]);
        assert(text[j] == value[j - front.len()]);
        assert(false);
    }
    assert(front =~= text.subrange(0, front.len() as int));
    assert(other_front =~= other.subrange(0, front.len() as int));
    assert(value =~= text.subrange(front.len() as int, text.len() as int));
    assert(other_value =~= other.subrange(front.len() as int, text.len() as int));
}

/// Members with the same keys and the same text have the same values, as
/// long as no value holds a colon.
proof fn lemma_members_text_is_injective(
    xs: Seq<(Seq<u8>, Seq<u8>)>,
    ys: Seq<(Seq<u8>, Seq<u8>)>,
)
    requires
        xs.len() == ys.len(),
        forall|i: int| 0 <= i < xs.len() ==> (#[trigger] xs[i]).0 == ys[i].0,
        forall|i: int| 0 <= i < xs.len() ==> free_of((#[trigger] xs[i]).1, COLON),
        forall|i: int| 0 <= i < ys.len() ==> free_of((#[trigger] ys[i]).1, COLON),
        members_text(xs) == members_text(ys),
    ensures
        forall|i: int| 0 <= i < xs.len() ==> (#[trigger] xs[i]).1 == ys[i].1,
    decreases xs.len(),
{
    if xs.len() == 0 {
    } else {
        let key = xs.last().0;
        let opening = seq![QUOTE] + key + seq![QUOTE, COLON];
        let vx = xs.last().1;
        let vy = ys.last().1;
        assert(ys.last().0 == key);
        if xs.len() == 1 {
            lemma_cut_after_colon(opening, vx, opening, vy);
        } else {
            let mx = members_text(xs.drop_last());
            let my = members_text(ys.drop_last());
            let px = mx + seq![COMMA] + opening;
            let py = my + seq![COMMA] + opening;
            assert(members_text(xs) =~= px + vx);
            assert(members_text(ys) =~= py + vy);
            lemma_cut_after_colon(px, vx, py, vy);
            assert(mx =~= px.subrange(0, mx.len() as int));
            assert(my =~= py.subrange(0, my.len() as int));
            assert forall|i: int| 0 <= i < xs.drop_last().len() implies (
            #[trigger] xs.drop_last()[i]).0 == ys.drop_last()[i].0 by {
                assert(xs.drop_last()[i] == xs[i]);
                assert(ys.drop_last()[i] == ys[i]);
            }
            assert forall|i: int| 0 <= i < xs.drop_last().len() implies free_of(
                (#[trigger] xs.drop_last()[i]).1,
                COLON,
            ) by {
                assert(xs.drop_last()[i] == xs[i]);
            }
            assert forall|i: int| 0 <= i < ys.drop_last().len() implies free_of(
                (#[trigger] ys.drop_last()[i]).1,
                COLON,
            ) by {
                assert(ys.drop_last()[i] == ys[i]);
            }
            lemma_members_text_is_injective(xs.drop_last(), ys.drop_last());
            assert forall|i: int| 0 <= i < xs.len() implies (#[trigger] xs[i]).1 == ys[i].1 by {
                if i < xs.len() - 1 {
                    assert(xs.drop_last()[i] == xs[i]);
                    assert(ys.drop_last()[i] == ys[i]);
                }
            }
        }
    }
}

/// The bytes of `true` and of `false`.
proof fn lemma_boolean_text(value: bool)
    ensures
        boolean_text(value) == if value {
            seq![0x74u8, 0x72u8, 0x75u8, 0x65u8]
        } else {
            seq![0x66u8, 0x61u8, 0x6cu8, 0x73u8, 0x65u8]
        },
{
    reveal_strlit("true");
    reveal_strlit("false");
    is_ascii_spec_bytes("true");
    is_ascii_spec_bytes("false");
    assert("true".spec_bytes() =~= seq![0x74u8, 0x72u8, 0x75u8, 0x65u8]);
    assert("false".spec_bytes() =~= seq![0x66u8, 0x61u8, 0x6cu8, 0x73u8, 0x65u8]);
}

/// Members hold a byte only if a key or a value does, the quote, the colon
/// and the comma apart.
proof fn lemma_members_text_is_free_of(members: Seq<(Seq<u8>, Seq<u8>)>, b: u8)
    requires
        b != QUOTE && b != COLON && b != COMMA,
        forall|i: int| 0 <= i < members.len() ==> free_of((#[trigger] members[i]).0, b),
        forall|i: int| 0 <= i < members.len() ==> free_of((#[trigger] members[i]).1, b),
    ensures
        free_of(members_text(members), b),
    decreases members.len(),
{
    if members.len() >= 1 {
        let key = members.last().0;
        let value = members.last().1;
        assert(free_of(key, b));
        assert(free_of(value, b));
        assert(free_of(member_text(key, value), b));
        if members.len() >= 2 {
            assert forall|i: int| 0 <= i < members.drop_last().len() implies free_of(
                (#[trigger] members.drop_last()[i]).0,
                b,
            ) && free_of(members.drop_last()[i].1, b) by {
                assert(members.drop_last()[i] == members[i]);
            }
            lemma_members_text_is_free_of(members.drop_last(), b);
        }
    }
}

proof fn lemma_decimal_is_plain(n: nat, b: u8)
    requires
        b == COLON || b == NEWLINE,
    ensures
        free_of(decimal(n), b),
{
    lemma_decimal_is_digits(n);
}

proof fn lemma_numeral_is_plain(s: Seq<u8>, b: u8)
    requires
        is_numeral(s),
        b == COLON || b == NEWLINE,
    ensures
        free_of(s, b),
{
    lemma_numeral_bytes(s);
}

proof fn lemma_boolean_is_plain(value: bool, b: u8)
    requires
        b == COLON || b == NEWLINE,
    ensures
        free_of(boolean_text(value), b),
{
    lemma_boolean_text(value);
}

impl StatusSnapshot {
    /// The two fractional readings are numbers. Every snapshot that executable
    /// code can hold is valid.
    pub open spec fn valid(self) -> bool {
        is_numeral(self.load@) && is_numeral(self.cpu@)
    }

    /// No value of a valid snapshot holds a colon or a newline.
    proof fn lemma_values_are_plain(self, b: u8)
        requires
            self.valid(),
            b == COLON || b == NEWLINE,
        ensures
            self.members().len() == 15,
            forall|i: int| 0 <= i < 15 ==> free_of((#[trigger] self.members()[i]).1, b),
    {
        lemma_decimal_is_plain(self.uptime as nat, b);
        lemma_decimal_is_plain(self.memory_total as nat, b);
        lemma_decimal_is_plain(self.memory_used as nat, b);
        lemma_decimal_is_plain(self.swap_total as nat, b);
        lemma_decimal_is_plain(self.swap_used as nat, b);
        lemma_decimal_is_plain(self.hdd_total as nat, b);
        lemma_decimal_is_plain(self.hdd_used as nat, b);
        lemma_decimal_is_plain(self.network_rx as nat, b);
        lemma_decimal_is_plain(self.network_tx as nat, b);
        lemma_decimal_is_plain(self.network_in as nat, b);
        lemma_decimal_is_plain(self.network_out as nat, b);
        lemma_numeral_is_plain(self.load@, b);
        lemma_numeral_is_plain(self.cpu@, b);
        lemma_boolean_is_plain(self.online4, b);
        lemma_boolean_is_plain(self.online6, b);
        let members = self.members();
        assert forall|i: int| 0 <= i < 15 implies free_of((#[trigger] members[i]).1, b) by {
            assert(i == 0 || i == 1 || i == 2 || i == 3 || i == 4 || i == 5 || i == 6 || i == 7
                || i == 8 || i == 9 || i == 10 || i == 11 || i == 12 || i == 13 || i == 14);
        }
    }

    /// No key holds a newline.
    proof fn lemma_keys_are_plain(self)
        ensures
            forall|i: int| 0 <= i < 15 ==> free_of((#[trigger] self.members()[i]).0, NEWLINE),
    {
        reveal_strlit("uptime");
        reveal_strlit("load");
        reveal_strlit("memory_total");
        reveal_strlit("memory_used");
        reveal_strlit("swap_total");
        reveal_strlit("swap_used");
        reveal_strlit("hdd_total");
        reveal_strlit("hdd_used");
        reveal_strlit("cpu");
        reveal_strlit("network_rx");
        reveal_strlit("network_tx");
        reveal_strlit("network_in");
        reveal_strlit("network_out");
        reveal_strlit("online4");
        reveal_strlit("online6");
        is_ascii_spec_bytes("uptime");
        is_ascii_spec_bytes("load");
        is_ascii_spec_bytes("memory_total");
        is_ascii_spec_bytes("memory_used");
        is_ascii_spec_bytes("swap_total");
        is_ascii_spec_bytes("swap_used");
        is_ascii_spec_bytes("hdd_total");
        is_ascii_spec_bytes("hdd_used");
        is_ascii_spec_bytes("cpu");
        is_ascii_spec_bytes("network_rx");
        is_ascii_spec_bytes("network_tx");
        is_ascii_spec_bytes("network_in");
        is_ascii_spec_bytes("network_out");
        is_ascii_spec_bytes("online4");
        is_ascii_spec_bytes("online6");
    }

    /// The report is one line: it ends in a newline and holds no other.
    pub proof fn lemma_line_is_one_line(self)
        requires
            self.valid(),
        ensures
            self.line_text().len() > 0,
            self.line_text().last() == NEWLINE,
            free_of(self.line_text().drop_last(), NEWLINE),
    {
        let head = "update ".spec_bytes();
        assert(free_of(head, NEWLINE)) by {
            reveal_strlit("update ");
            is_ascii_spec_bytes("update ");
        }
        self.lemma_keys_are_plain();
        self.lemma_values_are_plain(NEWLINE);
        lemma_members_text_is_free_of(self.members(), NEWLINE);
        assert(free_of(self.json_text(), NEWLINE));
        assert(self.line_text().drop_last() =~= head + self.json_text());
    }

    /// The line holds the snapshot: two valid snapshots that are reported by
    /// the same line agree in every member, so whoever reads the line can
    /// tell each value that was written.
    pub proof fn lemma_line_holds_the_snapshot(self, other: StatusSnapshot)
        requires
            self.valid(),
            other.valid(),
            self.line_text() == other.line_text(),
        ensures
            self.uptime == other.uptime,
            self.load@ == other.load@,
            self.memory_total == other.memory_total,
            self.memory_used == other.memory_used,
            self.swap_total == other.swap_total,
            self.swap_used == other.swap_used,
            self.hdd_total == other.hdd_total,
            self.hdd_used == other.hdd_used,
            self.cpu@ == other.cpu@,
            self.network_rx == other.network_rx,
            self.network_tx == other.network_tx,
            self.network_in == other.network_in,
            self.network_out == other.network_out,
            self.online4 == other.online4,
            self.online6 == other.online6,
    {
        let head = "update ".spec_bytes();
        let xs = self.members();
        let ys = other.members();
        let jx = self.json_text();
        let jy = other.json_text();
        let line = self.line_text();
        assert(jx.len() == jy.len()) by {
            assert(line.len() == head.len() + jx.len() + 1);
            assert(line.len() == head.len() + jy.len() + 1);
        }
        let from = head.len() as int;
        let to = (head.len() + jx.len()) as int;
        assert(jx =~= line.subrange(from, to));
        assert(jy =~= other.line_text().subrange(from, to));
        let mx = members_text(xs);
        let my = members_text(ys);
        assert(mx =~= jx.subrange(1, (1 + mx.len()) as int));
        assert(my =~= jy.subrange(1, (1 + my.len()) as int));
        self.lemma_values_are_plain(COLON);
        other.lemma_values_are_plain(COLON);
        lemma_members_text_is_injective(xs, ys);
        assert(xs[0].1 == ys[0].1);
        assert(xs[1].1 == ys[1].1);
        assert(xs[2].1 == ys[2].1);
        assert(xs[3].1 == ys[3].1);
        assert(xs[4].1 == ys[4].1);
        assert(xs[5].1 == ys[5].1);
        assert(xs[6].1 == ys[6].1);
        assert(xs[7].1 == ys[7].1);
        assert(xs[8].1 == ys[8].1);
        assert(xs[9].1 == ys[9].1);
        assert(xs[10].1 == ys[10].1);
        assert(xs[11].1 == ys[11].1);
        assert(xs[12].1 == ys[12].1);
        assert(xs[13].1 == ys[13].1);
        assert(xs[14].1 == ys[14].1);
        lemma_decimal_is_injective(self.uptime as nat, other.uptime as nat);
        lemma_decimal_is_injective(self.memory_total as nat, other.memory_total as nat);
        lemma_decimal_is_injective(self.memory_used as nat, other.memory_used as nat);
        lemma_decimal_is_injective(self.swap_total as nat, other.swap_total as nat);
        lemma_decimal_is_injective(self.swap_used as nat, other.swap_used as nat);
        lemma_decimal_is_injective(self.hdd_total as nat, other.hdd_total as nat);
        lemma_decimal_is_injective(self.hdd_used as nat, other.hdd_used as nat);
        lemma_decimal_is_injective(self.network_rx as nat, other.network_rx as nat);
        lemma_decimal_is_injective(self.network_tx as nat, other.network_tx as nat);
        lemma_decimal_is_injective(self.network_in as nat, other.network_in as nat);
        lemma_decimal_is_injective(self.network_out as nat, other.network_out as nat);
        lemma_boolean_text(self.online4);
        lemma_boolean_text(other.online4);
        lemma_boolean_text(self.online6);
        lemma_boolean_text(other.online6);
    }
}

} // verus!
