//! The keys of the system management controller: which of them are temperature sensors,
//! and how a value is stored.
use crate::text::{starts_with, texts};
use vstd::prelude::*;

verus! {

/// The type code of a floating-point value: the characters `flt` and a space.
pub const FLOAT_TYPE: u32 = 1718383648;

/// The key that holds the power of the whole system.
pub const SYS_POWER_KEY: &'static str = "PSTR";

/// How the value of a key is stored.
#[derive(Debug, Clone, Copy)]
pub struct KeyInfo {
    pub data_size: u32,
    pub data_type: u32,
}

impl KeyInfo {
    /// The value is a floating-point number of four bytes.
    pub open spec fn spec_is_float(self) -> bool {
        self.data_size == 4 && self.data_type == FLOAT_TYPE
    }

    /// Whether the value is a floating-point number of four bytes. Only such a key is
    /// worth reading.
    pub fn is_float(&self) -> (r: bool)
        ensures
            r == self.spec_is_float(),
    {
        self.data_size == 4 && self.data_type == FLOAT_TYPE
    }
}

/// What is known of a key after looking at it.
#[derive(Debug)]
pub struct SmcProbe {
    pub name: String,
    /// How the value is stored; nothing where the controller did not tell.
    pub info: Option<KeyInfo>,
    /// Whether the value could be read.
    pub readable: bool,
}

impl SmcProbe {
    /// The key holds a floating-point number that can be read, and its name begins with
    /// `prefix`.
    pub open spec fn is_sensor(self, prefix: Seq<char>) -> bool {
        &&& self.info matches Some(info) && info.spec_is_float()
        &&& self.readable
        &&& prefix.is_prefix_of(self.name@)
    }
}

/// The names of the sensors among `probes` that begin with `prefix`, in order.
pub open spec fn sensors(probes: Seq<SmcProbe>, prefix: Seq<char>) -> Seq<Seq<char>> {
    probes.filter(|p: SmcProbe| p.is_sensor(prefix)).map_values(|p: SmcProbe| p.name@)
}

pub(crate) proof fn sensors_push(probes: Seq<SmcProbe>, p: SmcProbe, prefix: Seq<char>)
    ensures
        sensors(probes.push(p), prefix) == if p.is_sensor(prefix) {
            sensors(probes, prefix).push(p.name@)
        } else {
            sensors(probes, prefix)
        },
{
    let pred = |p: SmcProbe| p.is_sensor(prefix);
    probes.lemma_filter_push(p, pred);
    assert(sensors(probes.push(p), prefix) =~= if p.is_sensor(prefix) {
        sensors(probes, prefix).push(p.name@)
    } else {
        sensors(probes, prefix)
    });
}

/// The names of the processor's and of the graphics unit's temperature sensors.
///
/// It is not documented which key stands for what. By convention the names that begin
/// with `Tp` are of the processor and those that begin with `Tg` of the graphics unit.
pub fn init_smc(probes: &Vec<SmcProbe>) -> (r: (Vec<String>, Vec<String>))
    ensures
        texts(r.0@) == sensors(probes@, "Tp"@),
        texts(r.1@) == sensors(probes@, "Tg"@),
{
    let mut cpu: Vec<String> = Vec::new();
    let mut gpu: Vec<String> = Vec::new();
    proof {
        reveal_with_fuel(Seq::filter, 1);
        assert(texts(cpu@) =~= sensors(probes@.take(0), "Tp"@));
        assert(texts(gpu@) =~= sensors(probes@.take(0), "Tg"@));
    }
    for i in 0..probes.len()
        invariant
            texts(cpu@) == sensors(probes@.take(i as int), "Tp"@),
            texts(gpu@) == sensors(probes@.take(i as int), "Tg"@),
    {
        let probe = &probes[i];
        proof {
            assert(probes@.take(i + 1) =~= probes@.take(i as int).push(*probe));
            sensors_push(probes@.take(i as int), *probe, "Tp"@);
            sensors_push(probes@.take(i as int), *probe, "Tg"@);
            one_owner(probe.name@);
        }
        let float = match probe.info {
            Some(info) => info.is_float(),
            None => false,
        };
        if float && probe.readable {
            if starts_with(probe.name.as_str(), "Tp") {
                let ghost before = cpu@;
                cpu.push(probe.name.clone());
                assert(texts(cpu@) =~= texts(before).push(probe.name@));
            } else if starts_with(probe.name.as_str(), "Tg") {
                let ghost before = gpu@;
                gpu.push(probe.name.clone());
                assert(texts(gpu@) =~= texts(before).push(probe.name@));
            }
        }
    }
    assert(probes@.take(probes@.len() as int) =~= probes@);
    (cpu, gpu)
}

/// No key is a sensor of both the processor and the graphics unit.
pub proof fn one_owner(name: Seq<char>)
    ensures
        !("Tp"@.is_prefix_of(name) && "Tg"@.is_prefix_of(name)),
{
    reveal_strlit("Tp");
    reveal_strlit("Tg");
    if "Tp"@.is_prefix_of(name) && "Tg"@.is_prefix_of(name) {
        assert("Tp"@[1] == name.subrange(0, 2)[1]);
        assert("Tg"@[1] == name.subrange(0, 2)[1]);
    }
}

/// The number that four bytes hold, the lowest one first.
pub open spec fn word_at(data: Seq<u8>) -> int {
    data[0] + 0x100 * data[1] + 0x1_0000 * data[2] + 0x100_0000 * data[3]
}

/// The number that the first four bytes of `data` hold, the lowest one first.
pub fn word(data: &Vec<u8>) -> (r: u32)
    requires
        data@.len() >= 4,
    ensures
        r == word_at(data@),
{
    data[0] as u32 + 0x100 * data[1] as u32 + 0x1_0000 * data[2] as u32 + 0x100_0000
        * data[3] as u32
}

/// The first four bytes of `data` are the digits of `x` to the base of 256, the lowest one
/// first.
pub open spec fn stored_as(x: u32, data: Seq<u8>) -> bool {
    &&& x % 0x100 == data[0]
    &&& x / 0x100 % 0x100 == data[1]
    &&& x / 0x1_0000 % 0x100 == data[2]
    &&& x / 0x100_0000 == data[3]
}

pub(crate) proof fn word_has_digits(data: Seq<u8>, x: u32)
    ensures
        stored_as(x, data) <==> x == word_at(data),
{
    let x1 = x / 0x100;
    let x2 = x1 / 0x100;
    let x3 = x2 / 0x100;
    assert(x / 0x1_0000 == x2 && x / 0x100_0000 == x3) by {
        assert(x / 0x1_0000 == (x / 0x100) / 0x100) by (bit_vector);
        assert(x / 0x100_0000 == ((x / 0x100) / 0x100) / 0x100) by (bit_vector);
    }
    assert(x == 0x100 * x1 + x % 0x100);
    assert(x1 == 0x100 * x2 + x1 % 0x100);
    assert(x2 == 0x100 * x3 + x2 % 0x100);
    let (d0, d1, d2, d3) = (data[0], data[1], data[2], data[3]);
    if x == word_at(data) {
        let y = d0 + 0x100 * (d1 + 0x100 * (d2 + 0x100 * d3));
        assert(x == y);
        assert(x1 == d1 + 0x100 * (d2 + 0x100 * d3));
        assert(x2 == d2 + 0x100 * d3);
        assert(x3 == d3);
    }
    assert(x3 < 0x100);
    assert(stored_as(x, data) <==> x % 0x100 == d0 && x1 % 0x100 == d1 && x2 % 0x100 == d2 && x3
        == d3);
}

/// The number that `word` reads is the one with the bytes for digits.
pub proof fn word_reads_what_is_stored(data: Vec<u8>, x: u32, r: u32)
    requires
        data@.len() >= 4,
        call_ensures(word, (&data,), r),
    ensures
        stored_as(r, data@),
        stored_as(x, data@) ==> r == x,
{
    word_has_digits(data@, r);
    word_has_digits(data@, x);
}

/// A key is a floating-point number exactly where it takes four bytes and the characters of
/// its type are `flt` and a space.
pub proof fn float_keys_have_the_float_type(key: KeyInfo, r: bool)
    requires
        call_ensures(KeyInfo::is_float, (&key,), r),
    ensures
        r <==> key.data_size == 4 && key.data_type == ((('f' as int * 0x100 + 'l' as int) * 0x100
            + 't' as int) * 0x100 + ' ' as int),
{
}

/// `p` names a floating-point number of four bytes that can be read, and the first two
/// characters of its name are `T` and `which`.
pub open spec fn names_a_sensor(p: SmcProbe, which: char) -> bool {
    &&& p.info is Some
    &&& p.info->0.data_size == 4
    &&& p.info->0.data_type == (('f' as int * 0x100 + 'l' as int) * 0x100 + 't' as int) * 0x100
        + ' ' as int
    &&& p.readable
    &&& p.name@.len() >= 2
    &&& p.name@[0] == 'T'
    &&& p.name@[1] == which
}

pub(crate) proof fn sensors_are_named(p: SmcProbe)
    ensures
        p.is_sensor("Tp"@) <==> names_a_sensor(p, 'p'),
        p.is_sensor("Tg"@) <==> names_a_sensor(p, 'g'),
{
    reveal_strlit("Tp");
    reveal_strlit("Tg");
    let name = p.name@;
    if name.len() >= 2 {
        let begin = name.subrange(0, 2);
        assert(begin[0] == name[0] && begin[1] == name[1]);
        if name[0] == 'T' && name[1] == 'p' {
            assert("Tp"@ =~= begin);
        }
        if name[0] == 'T' && name[1] == 'g' {
            assert("Tg"@ =~= begin);
        }
    }
}

/// Whatever keys were looked at before, one more key adds its name to the end of the
/// processor's sensors where it is one, or else to those of the graphics unit where it is one
/// of these, and leaves the rest as it is. Without keys there are no sensors.
pub proof fn each_key_adds_at_most_itself(
    probes: Vec<SmcProbe>,
    more: Vec<SmcProbe>,
    p: SmcProbe,
    r: (Vec<String>, Vec<String>),
    s: (Vec<String>, Vec<String>),
)
    requires
        more@ == probes@.push(p),
        call_ensures(init_smc, (&probes,), r),
        call_ensures(init_smc, (&more,), s),
    ensures
        probes@.len() == 0 ==> r.0@.len() == 0 && r.1@.len() == 0,
        texts(s.0@) == if names_a_sensor(p, 'p') {
            texts(r.0@).push(p.name@)
        } else {
            texts(r.0@)
        },
        texts(s.1@) == if names_a_sensor(p, 'g') {
            texts(r.1@).push(p.name@)
        } else {
            texts(r.1@)
        },
{
    sensors_are_named(p);
    sensors_push(probes@, p, "Tp"@);
    sensors_push(probes@, p, "Tg"@);
    if probes@.len() == 0 {
        reveal_with_fuel(Seq::filter, 1);
        assert(texts(r.0@).len() == r.0@.len());
        assert(texts(r.1@).len() == r.1@.len());
    }
}

/// A number can be read from any four bytes or more, and any keys can be looked through.
pub proof fn any_bytes_hold_a_number(data: Vec<u8>, probes: Vec<SmcProbe>)
    ensures
        data@.len() >= 4 ==> call_requires(word, (&data,)),
        call_requires(init_smc, (&probes,)),
{
}

/// The power of the whole system is held under a key of four characters.
pub proof fn power_has_a_key_of_four_characters()
    ensures
        SYS_POWER_KEY@ == seq!['P', 'S', 'T', 'R'],
{
    reveal_strlit("PSTR");
    assert(SYS_POWER_KEY@ =~= seq!['P', 'S', 'T', 'R']);
}

} // verus!
