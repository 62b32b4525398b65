use vstd::prelude::*;
use crate::error::ReadError;

verus! {

/// One tokenizer event, reduced to what the parser reads.
#[derive(Debug, Clone, PartialEq, Eq)]
pub enum XmlToken {
    /// An opening tag, with its local name.
    StartElement(String),
    /// A closing tag, with its local name.
    EndElement(String),
    /// Decoded text content.
    Characters(String),
    /// The end of the document.
    EndDocument,
    /// Any other event (document start, comments, processing instructions).
    Other,
}

/// An event as the tokenizer delivers it: a token or a tokenizer failure.
pub type XmlEvent = Result<XmlToken, xml::reader::Error>;

/// The mathematical value of a property-list node.
pub enum Plist {
    Integer(i32),
    String(Seq<char>),
    Date(Seq<char>),
    Boolean(bool),
    Dict(Map<Seq<char>, Plist>),
    Array(Seq<Plist>),
}

/// A node of a parsed property list.
#[derive(Debug)]
pub enum PropertyListValue {
    Integer(i32),
    String(String),
    Date(String),
    Boolean(bool),
    Dict(PropertyListDict),
    Array(Vec<PropertyListValue>),
}

/// A property-list dictionary: its entries, where a later entry for a key
/// shadows an earlier one (`insert` keeps keys unique).
#[derive(Debug)]
pub struct PropertyListDict {
    pub entries: Vec<(String, PropertyListValue)>,
}

/// The map that a sequence of key/value pairs denotes: later pairs win.
pub open spec fn pairs_map(p: Seq<(Seq<char>, Plist)>) -> Map<Seq<char>, Plist>
    decreases p.len(),
{
    if p.len() == 0 {
        Map::empty()
    } else {
        pairs_map(p.drop_last()).insert(p.last().0, p.last().1)
    }
}

/// The values of an array, as mathematical values.
pub open spec fn array_model(a: &Vec<PropertyListValue>) -> Seq<Plist>
    decreases a,
{
    Seq::new(
        a.len() as nat,
        |i: int|
            if 0 <= i < a.len() {
                a[i].model()
            } else {
                Plist::Boolean(false)
            },
    )
}

impl PropertyListValue {
    pub open spec fn model(&self) -> Plist
        decreases self,
    {
        match self {
            PropertyListValue::Integer(n) => Plist::Integer(*n),
            PropertyListValue::String(t) => Plist::String(t@),
            PropertyListValue::Date(t) => Plist::Date(t@),
            PropertyListValue::Boolean(b) => Plist::Boolean(*b),
            PropertyListValue::Dict(d) => Plist::Dict(d.model()),
            PropertyListValue::Array(a) => Plist::Array(array_model(a)),
        }
    }
}

impl PropertyListDict {
    /// The key/value pairs of the entries, as mathematical values.
    pub open spec fn pair_models(&self) -> Seq<(Seq<char>, Plist)>
        decreases self, 0int,
    {
        Seq::new(
            self.entries.len() as nat,
            |i: int|
                if 0 <= i < self.entries.len() {
                    (self.entries[i].0@, self.entries[i].1.model())
                } else {
                    (Seq::empty(), Plist::Boolean(false))
                },
        )
    }

    pub open spec fn model(&self) -> Map<Seq<char>, Plist>
        decreases self, 1int,
    {
        pairs_map(self.pair_models())
    }
}

/// The value that a lookup of `k` finds: that of the last entry with key `k`.
pub open spec fn lookup(e: Seq<(String, PropertyListValue)>, k: Seq<char>) -> Option<PropertyListValue>
    decreases e.len(),
{
    if e.len() == 0 {
        None
    } else if e.last().0@ == k {
        Some(e.last().1)
    } else {
        lookup(e.drop_last(), k)
    }
}

/// Whether `j` is the last position of key `k` in `e`.
pub open spec fn last_position(e: Seq<(String, PropertyListValue)>, k: Seq<char>, j: int) -> bool {
    &&& 0 <= j < e.len()
    &&& e[j].0@ == k
    &&& forall|i: int| j < i < e.len() ==> e[i].0@ != k
}

/// Replacing the value at the last position of a key inserts into the map.
proof fn lemma_pairs_map_update(p: Seq<(Seq<char>, Plist)>, j: int, k: Seq<char>, v: Plist)
    requires
        0 <= j < p.len(),
        p[j].0 == k,
        forall|i: int| j < i < p.len() ==> p[i].0 != k,
    ensures
        pairs_map(p.update(j, (k, v))) == pairs_map(p).insert(k, v),
    decreases p.len(),
{
    let q = p.update(j, (k, v));
    if j == p.len() - 1 {
        assert(q.drop_last() =~= p.drop_last());
        assert(pairs_map(q) =~= pairs_map(p).insert(k, v));
    } else {
        assert(q.drop_last() =~= p.drop_last().update(j, (k, v)));
        lemma_pairs_map_update(p.drop_last(), j, k, v);
        assert(pairs_map(q) =~= pairs_map(p).insert(k, v));
    }
}

/// The key/value pairs of a sequence of entries, as mathematical values.
pub open spec fn entry_models(e: Seq<(String, PropertyListValue)>) -> Seq<(Seq<char>, Plist)> {
    Seq::new(e.len(), |i: int| (e[i].0@, e[i].1.model()))
}

/// A lookup finds the value that the map of the entries binds the key to.
proof fn lemma_lookup_model(e: Seq<(String, PropertyListValue)>, k: Seq<char>)
    ensures
        match lookup(e, k) {
            Some(v) => pairs_map(entry_models(e)).contains_key(k) && pairs_map(entry_models(e))[k] == v.model(),
            None => !pairs_map(entry_models(e)).contains_key(k),
        },
    decreases e.len(),
{
    if e.len() > 0 {
        lemma_lookup_model(e.drop_last(), k);
        assert(entry_models(e).drop_last() =~= entry_models(e.drop_last()));
    }
}

/// Tests whether a string holds exactly the characters of `lit`.
fn is_named(n: &String, lit: &str) -> (r: bool)
    ensures
        r == (n@ == lit@),
{
    *n == lit.to_owned()
}

impl PropertyListDict {
    /// An empty dictionary.
    pub fn new() -> (d: PropertyListDict)
        ensures
            d.entries@.len() == 0,
            d.model() == Map::<Seq<char>, Plist>::empty(),
    {
        let d = PropertyListDict { entries: Vec::new() };
        assert(d.pair_models() =~= Seq::<(Seq<char>, Plist)>::empty());
        d
    }

    /// The position of the last entry with key `key`, if any.
    fn position(&self, key: &str) -> (r: Option<usize>)
        ensures
            match r {
                Some(j) => last_position(self.entries@, key@, j as int),
                None => forall|i: int| 0 <= i < self.entries@.len() ==> self.entries@[i].0@ != key@,
            },
    {
        let mut i: usize = self.entries.len();
        while i > 0
            invariant
                i <= self.entries@.len(),
                forall|m: int| i <= m < self.entries@.len() ==> self.entries@[m].0@ != key@,
            decreases i,
        {
            i = i - 1;
            if is_named(&self.entries[i].0, key) {
                return Some(i);
            }
        }
        None
    }

    /// The value of the last entry with key `key`.
    pub fn get(&self, key: &str) -> (r: Option<&PropertyListValue>)
        ensures
            match r {
                Some(v) => {
                    &&& lookup(self.entries@, key@) == Some(*v)
                    &&& self.model().contains_key(key@)
                    &&& self.model()[key@] == v.model()
                },
                None => lookup(self.entries@, key@) is None && !self.model().contains_key(key@),
            },
    {
        proof {
            lemma_lookup_last(self.entries@, key@);
            lemma_lookup_model(self.entries@, key@);
            assert(self.pair_models() =~= entry_models(self.entries@));
        }
        match self.position(key) {
            Some(j) => Some(&self.entries[j].1),
            None => None,
        }
    }

    /// Sets the value of `key`, replacing the entry that holds it, if any.
    pub fn insert(&mut self, key: String, value: PropertyListValue)
        ensures
            final(self).model() == old(self).model().insert(key@, value.model()),
    {
        let ghost k = key@;
        let ghost v = value.model();
        match self.position(key.as_str()) {
            Some(j) => {
                let ghost p = old(self).pair_models();
                self.entries.set(j, (key, value));
                proof {
                    lemma_pairs_map_update(p, j as int, k, v);
                    assert(self.pair_models() =~= p.update(j as int, (k, v)));
                }
            },
            None => {
                let ghost p = old(self).pair_models();
                self.entries.push((key, value));
                proof {
                    assert(self.pair_models().drop_last() =~= p);
                }
            },
        }
    }
}

/// A lookup finds the last entry with the key, or nothing when none has it.
proof fn lemma_lookup_last(e: Seq<(String, PropertyListValue)>, k: Seq<char>)
    ensures
        forall|j: int| last_position(e, k, j) ==> lookup(e, k) == Some(e[j].1),
        (forall|i: int| 0 <= i < e.len() ==> e[i].0@ != k) ==> lookup(e, k) is None,
    decreases e.len(),
{
    if e.len() > 0 {
        lemma_lookup_last(e.drop_last(), k);
        assert forall|j: int| last_position(e, k, j) implies lookup(e, k) == Some(e[j].1) by {
            if j < e.len() - 1 {
                assert(last_position(e.drop_last(), k, j));
            }
        }
    }
}

/// The event stream that the tokenizer produces for a document.
pub uninterp spec fn xml_event_stream(b: Seq<u8>) -> Seq<XmlEvent>;

/// A finished tokenizer stream: it ends with its one terminal event, the end
/// of the document or a failure.
pub open spec fn well_formed_stream(s: Seq<XmlEvent>) -> bool {
    &&& s.len() > 0
    &&& (s.last() is Err || s.last() matches Ok(XmlToken::EndDocument))
    &&& forall|i: int|
        0 <= i < s.len() - 1 ==> (s[i] is Ok && !(s[i] matches Ok(XmlToken::EndDocument)))
}

/// The cursor after reading the event at `i`: past the end of the stream the
/// terminal event is read again.
pub open spec fn step(s: Seq<XmlEvent>, i: int) -> int {
    if i + 1 < s.len() {
        i + 1
    } else {
        i
    }
}

pub open spec fn starts(e: XmlEvent, name: Seq<char>) -> bool {
    e matches Ok(XmlToken::StartElement(n)) && n@ == name
}

pub open spec fn ends(e: XmlEvent, name: Seq<char>) -> bool {
    e matches Ok(XmlToken::EndElement(n)) && n@ == name
}

/// The text that the event at `i` carries, if it is text.
pub open spec fn text_at(s: Seq<XmlEvent>, i: int) -> Option<Seq<char>> {
    match s[i] {
        Ok(XmlToken::Characters(t)) => Some(t@),
        _ => None,
    }
}

/// The value of a string of decimal digits.
pub open spec fn digits_value(d: Seq<char>) -> int
    decreases d.len(),
{
    if d.len() == 0 {
        0
    } else {
        digits_value(d.drop_last()) * 10 + (d.last() as u32 - '0' as u32)
    }
}

pub open spec fn is_digits(d: Seq<char>) -> bool {
    d.len() > 0 && forall|i: int| 0 <= i < d.len() ==> '0' <= #[trigger] d[i] <= '9'
}

/// A base-10 `i32` written as an optional sign and digits, if it is in range.
pub open spec fn decimal_i32(t: Seq<char>) -> Option<i32> {
    let neg = t.len() > 0 && t[0] == '-';
    let d = if t.len() > 0 && (t[0] == '-' || t[0] == '+') {
        t.drop_first()
    } else {
        t
    };
    let v = if neg {
        -digits_value(d)
    } else {
        digits_value(d)
    };
    if is_digits(d) && i32::MIN <= v <= i32::MAX {
        Some(v as i32)
    } else {
        None
    }
}

/// Reads dictionary entries from `i` on, into `acc`, up to the end of the
/// dictionary or of the document. `None` when the tokenizer failed first;
/// else the map and the cursor after the last event read.
pub open spec fn dict_from(s: Seq<XmlEvent>, i: int, acc: Map<Seq<char>, Plist>) -> Option<(Map<Seq<char>, Plist>, int)>
    decreases s.len() - i, 0int,
{
    if !(0 <= i < s.len()) || s[i] is Err {
        None
    } else if starts(s[i], "key"@) {
        if i + 1 < s.len() {
            match pair_from(s, i + 1) {
                None => None,
                Some((entry, j)) => {
                    let next = match entry {
                        Some((k, v)) => acc.insert(k, v),
                        None => acc,
                    };
                    if i < j < s.len() {
                        dict_from(s, j, next)
                    } else {
                        None
                    }
                },
            }
        } else {
            None
        }
    } else if s[i] matches Ok(XmlToken::EndDocument) || ends(s[i], "dict"@) {
        Some((acc, step(s, i)))
    } else if i + 1 < s.len() {
        dict_from(s, i + 1, acc)
    } else {
        None
    }
}

/// Reads the `<dict>` children of an array from `i` on, into `acc`, up to the
/// end of the array or of the document; other children are skipped.
pub open spec fn array_from(s: Seq<XmlEvent>, i: int, acc: Seq<Plist>) -> Option<(Seq<Plist>, int)>
    decreases s.len() - i, 0int,
{
    if !(0 <= i < s.len()) || s[i] is Err {
        None
    } else if starts(s[i], "dict"@) {
        if i + 1 < s.len() {
            match dict_from(s, i + 1, Map::empty()) {
                None => None,
                Some((m, j)) => if i < j < s.len() {
                    array_from(s, j, acc.push(Plist::Dict(m)))
                } else {
                    None
                },
            }
        } else {
            None
        }
    } else if s[i] matches Ok(XmlToken::EndDocument) || ends(s[i], "array"@) {
        Some((acc, step(s, i)))
    } else if i + 1 < s.len() {
        array_from(s, i + 1, acc)
    } else {
        None
    }
}

/// Reads a key's text and closing tag from `p` on, then one value.
pub open spec fn pair_from(s: Seq<XmlEvent>, p: int) -> Option<(Option<(Seq<char>, Plist)>, int)>
    decreases s.len() - p, 2int,
{
    if !(0 <= p < s.len()) {
        None
    } else {
        let key = match text_at(s, p) {
            Some(t) => t,
            None => Seq::empty(),
        };
        match value_from(s, step(s, step(s, p))) {
            None => None,
            Some((Some(v), j)) => Some((Some((key, v)), j)),
            Some((None, j)) => Some((None, j)),
        }
    }
}

/// Reads one value from `q` on: `Some((None, _))` where the element is unknown,
/// holds no text, or holds an integer that does not parse.
pub open spec fn value_from(s: Seq<XmlEvent>, q: int) -> Option<(Option<Plist>, int)>
    decreases s.len() - q, 1int,
{
    if !(0 <= q < s.len()) || s[q] is Err {
        None
    } else {
        let r = step(s, q);
        let after = step(s, r);
        match s[q] {
            Ok(XmlToken::StartElement(n)) => if n@ == "integer"@ {
                match text_at(s, r) {
                    Some(t) => match decimal_i32(t) {
                        Some(v) => Some((Some(Plist::Integer(v)), after)),
                        None => Some((None, after)),
                    },
                    None => Some((None, after)),
                }
            } else if n@ == "string"@ {
                match text_at(s, r) {
                    Some(t) => Some((Some(Plist::String(t)), after)),
                    None => Some((None, after)),
                }
            } else if n@ == "date"@ {
                match text_at(s, r) {
                    Some(t) => Some((Some(Plist::Date(t)), after)),
                    None => Some((None, after)),
                }
            } else if n@ == "true"@ {
                Some((Some(Plist::Boolean(true)), r))
            } else if n@ == "false"@ {
                Some((Some(Plist::Boolean(false)), r))
            } else if n@ == "dict"@ {
                if q + 1 < s.len() {
                    match dict_from(s, q + 1, Map::empty()) {
                        None => None,
                        Some((m, j)) => Some((Some(Plist::Dict(m)), j)),
                    }
                } else {
                    None
                }
            } else if n@ == "array"@ {
                if q + 1 < s.len() {
                    match array_from(s, q + 1, Seq::empty()) {
                        None => None,
                        Some((a, j)) => Some((Some(Plist::Array(a)), j)),
                    }
                } else {
                    None
                }
            } else {
                Some((None, r))
            },
            _ => Some((None, r)),
        }
    }
}

/// The root dictionary of a document, read from the first event on.
pub open spec fn parse_document(s: Seq<XmlEvent>) -> Option<Map<Seq<char>, Plist>> {
    match dict_from(s, 0, Map::empty()) {
        Some((m, _)) => Some(m),
        None => None,
    }
}

pub open spec fn value_model(v: Option<PropertyListValue>) -> Option<Plist> {
    match v {
        Some(v) => Some(v.model()),
        None => None,
    }
}

pub open spec fn entry_model(e: Option<(String, PropertyListValue)>) -> Option<(Seq<char>, Plist)> {
    match e {
        Some((k, v)) => Some((k@, v.model())),
        None => None,
    }
}

/// Relies on xml-rs: an `EventReader` made by `ParserConfig` with whitespace
/// trimming, walked by its event iterator, which hands out the end of the
/// document or the first error once and then stops.
#[verifier::external_body]
fn tokenize(bytes: &[u8]) -> (r: Vec<XmlEvent>)
    ensures
        r@ == xml_event_stream(bytes@),
        well_formed_stream(r@),
{
    let reader = xml::ParserConfig::new().trim_whitespace(true).create_reader(bytes);
    reader.into_iter().map(|event| event.map(|e| match e {
        xml::reader::XmlEvent::StartElement { name, .. } => XmlToken::StartElement(name.local_name),
        xml::reader::XmlEvent::EndElement { name } => XmlToken::EndElement(name.local_name),
        xml::reader::XmlEvent::Characters(text) => XmlToken::Characters(text),
        xml::reader::XmlEvent::EndDocument => XmlToken::EndDocument,
        _ => XmlToken::Other,
    })).collect()
}

/// Relies on `i32::from_str_radix` in base 10: an optional sign followed by
/// digits only, and a value in range.
#[verifier::external_body]
fn parse_decimal(t: &str) -> (r: Option<i32>)
    ensures
        r == decimal_i32(t@),
{
    i32::from_str_radix(t, 10).ok()
}

fn next_position(events: &Vec<XmlEvent>, i: usize) -> (r: usize)
    requires
        i < events@.len(),
    ensures
        r == step(events@, i as int),
{
    if i < events.len() - 1 {
        i + 1
    } else {
        i
    }
}

fn is_start(t: &XmlToken, name: &str) -> (r: bool)
    ensures
        r == (*t matches XmlToken::StartElement(n) && n@ == name@),
{
    match t {
        XmlToken::StartElement(n) => is_named(n, name),
        _ => false,
    }
}

fn is_end(t: &XmlToken, name: &str) -> (r: bool)
    ensures
        r == (*t matches XmlToken::EndElement(n) && n@ == name@),
{
    match t {
        XmlToken::EndElement(n) => is_named(n, name),
        _ => false,
    }
}

/// The text of the event at `i`, if it is text.
fn read_text(events: &Vec<XmlEvent>, i: usize) -> (r: Option<String>)
    requires
        i < events@.len(),
    ensures
        match r {
            Some(t) => text_at(events@, i as int) == Some(t@),
            None => text_at(events@, i as int) is None,
        },
{
    match &events[i] {
        Ok(XmlToken::Characters(t)) => Some(t.clone()),
        _ => None,
    }
}

/// Reads a dictionary whose entries begin at `start`.
fn read_dict(events: &Vec<XmlEvent>, start: usize) -> (r: Option<(PropertyListDict, usize)>)
    requires
        well_formed_stream(events@),
        start < events@.len(),
    ensures
        match r {
            Some((d, j)) => {
                &&& dict_from(events@, start as int, Map::empty()) == Some((d.model(), j as int))
                &&& start <= j < events@.len()
            },
            None => dict_from(events@, start as int, Map::empty()) is None && events@.last() is Err,
        },
    decreases events@.len() - start, 0int,
{
    let mut dict = PropertyListDict::new();
    let mut i: usize = start;
    let n: usize = events.len();
    loop
        invariant
            well_formed_stream(events@),
            start <= i < events@.len(),
            n == events@.len(),
            dict_from(events@, start as int, Map::empty()) == dict_from(events@, i as int, dict.model()),
        decreases events@.len() - i,
    {
        match &events[i] {
            Err(_) => {
                return None;
            },
            Ok(t) => {
                if is_start(t, "key") {
                    match parse_key_value_pair(events, i + 1) {
                        None => {
                            return None;
                        },
                        Some((entry, j)) => {
                            match entry {
                                Some((k, v)) => dict.insert(k, v),
                                None => {},
                            }
                            i = j;
                        },
                    }
                } else if matches!(t, XmlToken::EndDocument) || is_end(t, "dict") {
                    return Some((dict, next_position(events, i)));
                } else {
                    i = i + 1;
                }
            },
        }
    }
}

/// Reads the `<dict>` children of an array whose content begins at `start`.
fn read_array(events: &Vec<XmlEvent>, start: usize) -> (r: Option<(Vec<PropertyListValue>, usize)>)
    requires
        well_formed_stream(events@),
        start < events@.len(),
    ensures
        match r {
            Some((a, j)) => {
                &&& array_from(events@, start as int, Seq::empty()) == Some((array_model(&a), j as int))
                &&& start <= j < events@.len()
            },
            None => array_from(events@, start as int, Seq::empty()) is None && events@.last() is Err,
        },
    decreases events@.len() - start, 0int,
{
    let mut array: Vec<PropertyListValue> = Vec::new();
    let mut i: usize = start;
    let n: usize = events.len();
    proof {
        assert(array_model(&array) =~= Seq::<Plist>::empty());
    }
    loop
        invariant
            well_formed_stream(events@),
            start <= i < events@.len(),
            n == events@.len(),
            array_from(events@, start as int, Seq::empty()) == array_from(events@, i as int, array_model(&array)),
        decreases events@.len() - i,
    {
        match &events[i] {
            Err(_) => {
                return None;
            },
            Ok(t) => {
                if is_start(t, "dict") {
                    match read_dict(events, i + 1) {
                        None => {
                            return None;
                        },
                        Some((d, j)) => {
                            let ghost before = array_model(&array);
                            let v = PropertyListValue::Dict(d);
                            let ghost m = v.model();
                            array.push(v);
                            proof {
                                assert(array_model(&array) =~= before.push(m));
                            }
                            i = j;
                        },
                    }
                } else if matches!(t, XmlToken::EndDocument) || is_end(t, "array") {
                    return Some((array, next_position(events, i)));
                } else {
                    i = i + 1;
                }
            },
        }
    }
}

/// Reads a key's text from `p` on, skips its closing tag, then reads a value.
fn parse_key_value_pair(events: &Vec<XmlEvent>, p: usize) -> (r: Option<(Option<(String, PropertyListValue)>, usize)>)
    requires
        well_formed_stream(events@),
        p < events@.len(),
    ensures
        match r {
            Some((e, j)) => pair_from(events@, p as int) == Some((entry_model(e), j as int)) && p <= j < events@.len(),
            None => pair_from(events@, p as int) is None && events@.last() is Err,
        },
    decreases events@.len() - p, 2int,
{
    let key = match read_text(events, p) {
        Some(t) => t,
        None => String::new(),
    };
    let q = next_position(events, next_position(events, p));
    match parse_value(events, q) {
        None => None,
        Some((Some(v), j)) => Some((Some((key, v)), j)),
        Some((None, j)) => Some((None, j)),
    }
}

/// Reads one value whose first event is at `q`.
fn parse_value(events: &Vec<XmlEvent>, q: usize) -> (r: Option<(Option<PropertyListValue>, usize)>)
    requires
        well_formed_stream(events@),
        q < events@.len(),
    ensures
        match r {
            Some((v, j)) => value_from(events@, q as int) == Some((value_model(v), j as int)) && q <= j < events@.len(),
            None => value_from(events@, q as int) is None && events@.last() is Err,
        },
    decreases events@.len() - q, 1int,
{
    let r = next_position(events, q);
    let after = next_position(events, r);
    match &events[q] {
        Err(_) => None,
        Ok(XmlToken::StartElement(n)) => {
            if is_named(n, "integer") {
                match read_text(events, r) {
                    Some(t) => match parse_decimal(t.as_str()) {
                        Some(v) => Some((Some(PropertyListValue::Integer(v)), after)),
                        None => Some((None, after)),
                    },
                    None => Some((None, after)),
                }
            } else if is_named(n, "string") {
                match read_text(events, r) {
                    Some(t) => Some((Some(PropertyListValue::String(t)), after)),
                    None => Some((None, after)),
                }
            } else if is_named(n, "date") {
                match read_text(events, r) {
                    Some(t) => Some((Some(PropertyListValue::Date(t)), after)),
                    None => Some((None, after)),
                }
            } else if is_named(n, "true") {
                Some((Some(PropertyListValue::Boolean(true)), r))
            } else if is_named(n, "false") {
                Some((Some(PropertyListValue::Boolean(false)), r))
            } else if is_named(n, "dict") {
                match read_dict(events, q + 1) {
                    None => None,
                    Some((d, j)) => Some((Some(PropertyListValue::Dict(d)), j)),
                }
            } else if is_named(n, "array") {
                match read_array(events, q + 1) {
                    None => None,
                    Some((a, j)) => Some((Some(PropertyListValue::Array(a)), j)),
                }
            } else {
                Some((None, r))
            }
        },
        Ok(_) => Some((None, r)),
    }
}

/// Reads the root dictionary of a finished tokenizer stream. Events before the
/// first key (the document start, the `<plist>` and `<dict>` tags) are skipped;
/// the first closing `</dict>` at this level ends it.
pub fn parse_events(events: Vec<XmlEvent>) -> (r: Result<PropertyListDict, ReadError>)
    requires
        well_formed_stream(events@),
    ensures
        match r {
            Ok(d) => parse_document(events@) == Some(d.model()),
            Err(e) => {
                &&& parse_document(events@) is None
                &&& e matches ReadError::Parse(x) && events@.last() == Err::<XmlToken, xml::reader::Error>(x)
            },
        },
{
    let mut events = events;
    match read_dict(&events, 0) {
        Some((d, _)) => Ok(d),
        None => Err(ReadError::Parse(events.pop().unwrap().unwrap_err())),
    }
}

/// Reads the root dictionary of an XML property list.
pub fn read_property_list(bytes: &[u8]) -> (r: Result<PropertyListDict, ReadError>)
    ensures
        match r {
            Ok(d) => parse_document(xml_event_stream(bytes@)) == Some(d.model()),
            Err(e) => {
                &&& parse_document(xml_event_stream(bytes@)) is None
                &&& e matches ReadError::Parse(x)
                    && xml_event_stream(bytes@).last() == Err::<XmlToken, xml::reader::Error>(x)
            },
        },
{
    parse_events(tokenize(bytes))
}

/// The integer that a value holds, if it is an integer.
pub fn to_i32(value: &PropertyListValue) -> (r: Option<i32>)
    ensures
        r == (match *value {
            PropertyListValue::Integer(n) => Some(n),
            _ => None::<i32>,
        }),
{
    match value {
        PropertyListValue::Integer(v) => Some(*v),
        _ => None,
    }
}

/// The text that a value holds, if it is a string or a date.
pub fn to_string(value: &PropertyListValue) -> (r: Option<String>)
    ensures
        match *value {
            PropertyListValue::String(t) => r == Some(t),
            PropertyListValue::Date(t) => r == Some(t),
            _ => r is None,
        },
{
    match value {
        PropertyListValue::String(text) => Some(text.clone()),
        PropertyListValue::Date(text) => Some(text.clone()),
        _ => None,
    }
}

} // verus!
