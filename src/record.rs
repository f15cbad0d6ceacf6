use crate::address::DeviceAddr;
use vstd::prelude::*;

verus! {

/// One resource record of a discovery answer, reduced to what discovery reads.
pub enum RawRecord {
    /// An IPv4 address record, the address as the big-endian `u32` of its octets.
    Address(u32),
    /// A service record; only its port matters here.
    Service { port: u16 },
    /// A text record: its `key=value` items, in order.
    Text(Vec<String>),
    /// Any other kind of record.
    Other,
}

/// One multicast-DNS answer: its additional records, in the order received.
pub struct RawResponse {
    pub additional: Vec<RawRecord>,
}

/// A receiver found by discovery: its display name and its socket address.
pub struct Target {
    pub name: String,
    pub addr: DeviceAddr,
}

/// What a `Target` stands for.
pub struct TargetView {
    pub name: Seq<char>,
    pub addr: DeviceAddr,
}

impl View for Target {
    type V = TargetView;

    open spec fn view(&self) -> TargetView {
        TargetView { name: self.name@, addr: self.addr }
    }
}

impl Target {
    /// The receiver's display name.
    pub fn name(&self) -> (r: &str)
        ensures
            r@ == self.name@,
    {
        self.name.as_str()
    }

    /// The receiver's socket address.
    pub fn addr(&self) -> (r: DeviceAddr)
        ensures
            r == self.addr,
    {
        self.addr
    }
}

/// Position of the first `=` in `s` at or after `from`, or `s.len()` if none.
pub open spec fn eq_index(s: Seq<char>, from: int) -> int
    decreases s.len() - from,
{
    if from < 0 || from >= s.len() {
        s.len() as int
    } else if s[from] == '=' {
        from
    } else {
        eq_index(s, from + 1)
    }
}

proof fn lemma_eq_index_bounds(s: Seq<char>, from: int)
    requires
        0 <= from <= s.len(),
    ensures
        from <= eq_index(s, from) <= s.len(),
        eq_index(s, from) < s.len() ==> s[eq_index(s, from)] == '=',
    decreases s.len() - from,
{
    if from < s.len() && s[from] != '=' {
        lemma_eq_index_bounds(s, from + 1);
    }
}

/// The key of a text item: everything before its first `=`.
pub open spec fn item_key(s: Seq<char>) -> Seq<char> {
    s.subrange(0, eq_index(s, 0))
}

/// The value of a text item: everything after its first `=`; none where the
/// item holds no `=`.
pub open spec fn item_value(s: Seq<char>) -> Option<Seq<char>> {
    let k = eq_index(s, 0);
    if k == s.len() {
        None
    } else {
        Some(s.subrange(k + 1, s.len() as int))
    }
}

/// The name a text record gives: the value of its first item keyed `fn`.
pub open spec fn text_name(items: Seq<String>, from: int) -> Option<Seq<char>>
    decreases items.len() - from,
{
    if from < 0 || from >= items.len() {
        None
    } else if item_key(items[from]@) == seq!['f', 'n'] {
        item_value(items[from]@)
    } else {
        text_name(items, from + 1)
    }
}

pub open spec fn record_name(r: RawRecord) -> Option<Seq<char>> {
    match r {
        RawRecord::Text(items) => text_name(items@, 0),
        _ => None,
    }
}

/// The name of the first record, at or after `from`, that gives one.
pub open spec fn name_of(recs: Seq<RawRecord>, from: int) -> Option<Seq<char>>
    decreases recs.len() - from,
{
    if from < 0 || from >= recs.len() {
        None
    } else if record_name(recs[from]) is Some {
        record_name(recs[from])
    } else {
        name_of(recs, from + 1)
    }
}

/// The first IPv4 address record at or after `from`.
pub open spec fn ip_of(recs: Seq<RawRecord>, from: int) -> Option<u32>
    decreases recs.len() - from,
{
    if from < 0 || from >= recs.len() {
        None
    } else if recs[from] is Address {
        Some(recs[from]->Address_0)
    } else {
        ip_of(recs, from + 1)
    }
}

/// The port of the first service record at or after `from`.
pub open spec fn port_of(recs: Seq<RawRecord>, from: int) -> Option<u16>
    decreases recs.len() - from,
{
    if from < 0 || from >= recs.len() {
        None
    } else if recs[from] is Service {
        Some(recs[from]->port)
    } else {
        port_of(recs, from + 1)
    }
}

/// The receiver an answer describes: present only where the answer gives a
/// name, an address and a port.
pub open spec fn extracted(recs: Seq<RawRecord>) -> Option<TargetView> {
    match (name_of(recs, 0), ip_of(recs, 0), port_of(recs, 0)) {
        (Some(name), Some(ip), Some(port)) => Some(
            TargetView { name, addr: DeviceAddr { ip, port } },
        ),
        _ => None,
    }
}

/// Position of the first `=` in `s` at or after `from`, or its length.
fn find_eq(s: &str, from: usize) -> (r: usize)
    requires
        from <= s@.len(),
    ensures
        r == eq_index(s@, from as int),
{
    let len = s.unicode_len();
    let mut i: usize = from;
    while i < len
        invariant
            len == s@.len(),
            from <= i <= len,
            eq_index(s@, from as int) == eq_index(s@, i as int),
        decreases len - i,
    {
        if s.get_char(i) == '=' {
            return i;
        }
        i = i + 1;
    }
    i
}

/// The value of a text item whose key is `fn`, if the item is one.
fn name_item(s: &str) -> (r: Option<Option<String>>)
    ensures
        match r {
            None => item_key(s@) != seq!['f', 'n'],
            Some(v) => item_key(s@) == seq!['f', 'n'] && match v {
                None => item_value(s@) is None,
                Some(n) => item_value(s@) == Some(n@),
            },
        },
{
    let len = s.unicode_len();
    let k = find_eq(s, 0);
    proof {
        lemma_eq_index_bounds(s@, 0);
    }
    if !(k == 2 && s.get_char(0) == 'f' && s.get_char(1) == 'n') {
        assert(k != 2 ==> item_key(s@).len() != 2);
        assert(k == 2 && s@[0] != 'f' ==> item_key(s@)[0] != 'f');
        assert(k == 2 && s@[1] != 'n' ==> item_key(s@)[1] != 'n');
        return None;
    }
    assert(item_key(s@) =~= seq!['f', 'n']);
    if k == len {
        return Some(None);
    }
    Some(Some(s.substring_char(k + 1, len).to_owned()))
}

/// The name a text record gives: the value of its first item keyed `fn`.
fn record_text_name(items: &Vec<String>) -> (r: Option<String>)
    ensures
        match r {
            None => text_name(items@, 0) is None,
            Some(n) => text_name(items@, 0) == Some(n@),
        },
{
    let mut i: usize = 0;
    while i < items.len()
        invariant
            i <= items@.len(),
            text_name(items@, 0) == text_name(items@, i as int),
        decreases items@.len() - i,
    {
        match name_item(items[i].as_str()) {
            Some(v) => {
                return v;
            },
            None => {},
        }
        i = i + 1;
    }
    None
}

/// Reads the receiver an answer describes. The name comes from the first text
/// record whose first item keyed `fn` has a value, the address from the first
/// address record, the port from the first service record; an answer that
/// lacks any of the three describes no receiver, and is no error.
pub fn extract(response: &RawResponse) -> (r: Option<Target>)
    ensures
        r is None <==> (name_of(response.additional@, 0) is None || ip_of(
            response.additional@,
            0,
        ) is None || port_of(response.additional@, 0) is None),
        match r {
            None => extracted(response.additional@) is None,
            Some(t) => extracted(response.additional@) == Some(t@),
        },
{
    let recs = &response.additional;
    let mut name: Option<String> = None;
    let mut ip: Option<u32> = None;
    let mut port: Option<u16> = None;
    let mut i: usize = 0;
    while i < recs.len()
        invariant
            i <= recs@.len(),
            match name {
                None => name_of(recs@, 0) == name_of(recs@, i as int),
                Some(n) => name_of(recs@, 0) == Some(n@),
            },
            match ip {
                None => ip_of(recs@, 0) == ip_of(recs@, i as int),
                Some(a) => ip_of(recs@, 0) == Some(a),
            },
            match port {
                None => port_of(recs@, 0) == port_of(recs@, i as int),
                Some(p) => port_of(recs@, 0) == Some(p),
            },
        decreases recs@.len() - i,
    {
        match &recs[i] {
            RawRecord::Address(a) => {
                if ip.is_none() {
                    ip = Some(*a);
                }
            },
            RawRecord::Service { port: p } => {
                if port.is_none() {
                    port = Some(*p);
                }
            },
            RawRecord::Text(items) => {
                if name.is_none() {
                    name = record_text_name(items);
                }
            },
            RawRecord::Other => {},
        }
        i = i + 1;
    }
    match (name, ip, port) {
        (Some(name), Some(ip), Some(port)) => Some(Target { name, addr: DeviceAddr { ip, port } }),
        _ => None,
    }
}

} // verus!
