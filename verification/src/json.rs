use vstd::prelude::*;

verus! {

// --- characters -------------------------------------------------------------

/// A character that may stand unescaped inside a string literal of this
/// codec: printable ASCII except the quote and the backslash.
pub open spec fn plain_char(c: char) -> bool {
    0x20 <= c as u32 <= 0x7e && c != '"' && c != '\\'
}

/// A string all of whose characters are plain. Such a string is written to a
/// descriptor and read back without escaping; descriptor strings outside this
/// set are rejected as content errors rather than escaped.
pub open spec fn encodable(s: Seq<char>) -> bool {
    forall|i: int| 0 <= i < s.len() ==> plain_char(s[i])
}

/// Insignificant whitespace between tokens.
pub open spec fn is_ws(c: char) -> bool {
    c == ' ' || c == '\n' || c == '\t' || c == '\r'
}

/// Character-level test for [`plain_char`].
pub fn plain_char_exec(c: char) -> (r: bool)
    ensures
        r == plain_char(c),
{
    let u = c as u32;
    0x20 <= u && u <= 0x7e && c != '"' && c != '\\'
}

/// Whether every character of `s` is plain.
pub fn is_encodable(s: &str) -> (r: bool)
    ensures
        r == encodable(s@),
{
    let n = s.unicode_len();
    let mut i: usize = 0;
    while i < n
        invariant
            i <= n,
            n == s@.len(),
            forall|j: int| 0 <= j < i ==> plain_char(s@[j]),
        decreases n - i,
    {
        if !plain_char_exec(s.get_char(i)) {
            return false;
        }
        i += 1;
    }
    true
}

// --- document values --------------------------------------------------------

/// A member of a leaf object: a key and a string value.
#[derive(Debug)]
pub struct LeafMember {
    pub key: String,
    pub value: String,
}

/// A field's value: a string, or a flat object whose members are all strings.
#[derive(Debug)]
pub enum JsonValue {
    Str(String),
    Obj(Vec<LeafMember>),
}

/// One field of a document.
#[derive(Debug)]
pub struct JsonField {
    pub key: String,
    pub value: JsonValue,
}

/// A document of this codec: an object whose fields hold strings or flat
/// objects of strings.
#[derive(Debug)]
pub struct JsonDoc {
    pub fields: Vec<JsonField>,
}

/// The mathematical value of a [`JsonValue`].
pub enum JsonValueV {
    Str(Seq<char>),
    Obj(Seq<(Seq<char>, Seq<char>)>),
}

/// The mathematical value of a [`JsonDoc`].
pub struct JsonDocV {
    pub fields: Seq<(Seq<char>, JsonValueV)>,
}

impl View for LeafMember {
    type V = (Seq<char>, Seq<char>);

    open spec fn view(&self) -> (Seq<char>, Seq<char>) {
        (self.key@, self.value@)
    }
}

impl View for JsonValue {
    type V = JsonValueV;

    open spec fn view(&self) -> JsonValueV {
        match self {
            JsonValue::Str(s) => JsonValueV::Str(s@),
            JsonValue::Obj(ms) => JsonValueV::Obj(Seq::new(ms@.len(), |i: int| ms@[i]@)),
        }
    }
}

impl View for JsonField {
    type V = (Seq<char>, JsonValueV);

    open spec fn view(&self) -> (Seq<char>, JsonValueV) {
        (self.key@, self.value@)
    }
}

impl View for JsonDoc {
    type V = JsonDocV;

    open spec fn view(&self) -> JsonDocV {
        JsonDocV { fields: Seq::new(self.fields@.len(), |i: int| self.fields@[i]@) }
    }
}

/// The value of the first field bearing `key`, if any.
pub open spec fn doc_get(fields: Seq<(Seq<char>, JsonValueV)>, key: Seq<char>) -> Option<
    JsonValueV,
>
    decreases fields.len(),
{
    if fields.len() == 0 {
        None
    } else if fields[0].0 == key {
        Some(fields[0].1)
    } else {
        doc_get(fields.drop_first(), key)
    }
}

// --- the grammar ------------------------------------------------------------

/// The index just past the whitespace run beginning at `at`.
pub open spec fn skip_ws(s: Seq<char>, at: int) -> int
    decreases s.len() - at when 0 <= at <= s.len()
{
    if at < s.len() && is_ws(s[at]) {
        skip_ws(s, at + 1)
    } else {
        at
    }
}

pub proof fn lemma_skip_ws(s: Seq<char>, at: int)
    requires
        0 <= at <= s.len(),
    ensures
        at <= skip_ws(s, at) <= s.len(),
    decreases s.len() - at,
{
    if at < s.len() && is_ws(s[at]) {
        lemma_skip_ws(s, at + 1);
    }
}

/// The index of the closing quote of a string literal whose content begins at
/// `at`, provided the content is plain.
pub open spec fn scan_string(s: Seq<char>, at: int) -> Option<int>
    decreases s.len() - at when 0 <= at <= s.len()
{
    if at >= s.len() {
        None
    } else if s[at] == '"' {
        Some(at)
    } else if plain_char(s[at]) {
        scan_string(s, at + 1)
    } else {
        None
    }
}

pub proof fn lemma_scan_string(s: Seq<char>, at: int)
    requires
        0 <= at <= s.len(),
    ensures
        match scan_string(s, at) {
            Some(e) => at <= e < s.len() && s[e] == '"' && (forall|j: int|
                at <= j < e ==> plain_char(s[j])),
            None => true,
        },
    decreases s.len() - at,
{
    if at < s.len() && s[at] != '"' && plain_char(s[at]) {
        lemma_scan_string(s, at + 1);
    }
}

/// A parsed string literal: its content and the index just past the closing
/// quote.
pub open spec fn parse_string(s: Seq<char>, at: int) -> Option<(Seq<char>, int)> {
    if 0 <= at < s.len() && s[at] == '"' {
        match scan_string(s, at + 1) {
            Some(e) => Some((s.subrange(at + 1, e), e + 1)),
            None => None,
        }
    } else {
        None
    }
}

pub proof fn lemma_parse_string(s: Seq<char>, at: int)
    requires
        0 <= at <= s.len(),
    ensures
        match parse_string(s, at) {
            Some(p) => at + 2 <= p.1 <= s.len() && encodable(p.0),
            None => true,
        },
{
    if at < s.len() && s[at] == '"' {
        lemma_scan_string(s, at + 1);
        match scan_string(s, at + 1) {
            Some(e) => {
                assert forall|i: int| 0 <= i < s.subrange(at + 1, e).len() implies #[trigger]
                plain_char(s.subrange(at + 1, e)[i]) by {
                    assert(s.subrange(at + 1, e)[i] == s[at + 1 + i]);
                }
            },
            None => {},
        }
    }
}

/// The members of a leaf object, starting at the first key, up to and
/// including the closing brace.
pub open spec fn parse_leaf_members(s: Seq<char>, at: int) -> Option<
    (Seq<(Seq<char>, Seq<char>)>, int),
>
    decreases s.len() - at when 0 <= at <= s.len() via parse_leaf_members_dec
{
    match parse_string(s, at) {
        None => None,
        Some((k, a1)) => {
            let a2 = skip_ws(s, a1);
            if a2 < s.len() && s[a2] == ':' {
                let a3 = skip_ws(s, a2 + 1);
                match parse_string(s, a3) {
                    None => None,
                    Some((v, a4)) => {
                        let a5 = skip_ws(s, a4);
                        if a5 < s.len() && s[a5] == ',' {
                            let a6 = skip_ws(s, a5 + 1);
                            match parse_leaf_members(s, a6) {
                                Some((rest, e)) => Some((seq![(k, v)] + rest, e)),
                                None => None,
                            }
                        } else if a5 < s.len() && s[a5] == '}' {
                            Some((seq![(k, v)], a5 + 1))
                        } else {
                            None
                        }
                    },
                }
            } else {
                None
            }
        },
    }
}

#[via_fn]
proof fn parse_leaf_members_dec(s: Seq<char>, at: int) {
    lemma_parse_string(s, at);
    match parse_string(s, at) {
        Some(p) => {
            lemma_skip_ws(s, p.1);
            let a2 = skip_ws(s, p.1);
            if a2 < s.len() && s[a2] == ':' {
                lemma_skip_ws(s, a2 + 1);
                let a3 = skip_ws(s, a2 + 1);
                lemma_parse_string(s, a3);
                match parse_string(s, a3) {
                    Some(q) => {
                        lemma_skip_ws(s, q.1);
                        let a5 = skip_ws(s, q.1);
                        if a5 < s.len() && s[a5] == ',' {
                            lemma_skip_ws(s, a5 + 1);
                        }
                    },
                    None => {},
                }
            }
        },
        None => {},
    }
}

pub proof fn lemma_parse_leaf_members(s: Seq<char>, at: int)
    requires
        0 <= at <= s.len(),
    ensures
        match parse_leaf_members(s, at) {
            Some(p) => at < p.1 <= s.len(),
            None => true,
        },
    decreases s.len() - at,
{
    lemma_parse_string(s, at);
    match parse_string(s, at) {
        Some(p) => {
            lemma_skip_ws(s, p.1);
            let a2 = skip_ws(s, p.1);
            if a2 < s.len() && s[a2] == ':' {
                lemma_skip_ws(s, a2 + 1);
                let a3 = skip_ws(s, a2 + 1);
                lemma_parse_string(s, a3);
                match parse_string(s, a3) {
                    Some(q) => {
                        lemma_skip_ws(s, q.1);
                        let a5 = skip_ws(s, q.1);
                        if a5 < s.len() && s[a5] == ',' {
                            lemma_skip_ws(s, a5 + 1);
                            lemma_parse_leaf_members(s, skip_ws(s, a5 + 1));
                        }
                    },
                    None => {},
                }
            }
        },
        None => {},
    }
}

/// A leaf object: `{`, optional members, `}`.
pub open spec fn parse_leaf_obj(s: Seq<char>, at: int) -> Option<
    (Seq<(Seq<char>, Seq<char>)>, int),
> {
    if 0 <= at < s.len() && s[at] == '{' {
        let a1 = skip_ws(s, at + 1);
        if a1 < s.len() && s[a1] == '}' {
            Some((Seq::empty(), a1 + 1))
        } else {
            parse_leaf_members(s, a1)
        }
    } else {
        None
    }
}

pub proof fn lemma_parse_leaf_obj(s: Seq<char>, at: int)
    requires
        0 <= at <= s.len(),
    ensures
        match parse_leaf_obj(s, at) {
            Some(p) => at < p.1 <= s.len(),
            None => true,
        },
{
    if at < s.len() && s[at] == '{' {
        lemma_skip_ws(s, at + 1);
        lemma_parse_leaf_members(s, skip_ws(s, at + 1));
    }
}

/// A field value: a string literal or a leaf object.
pub open spec fn parse_value(s: Seq<char>, at: int) -> Option<(JsonValueV, int)> {
    if 0 <= at < s.len() && s[at] == '"' {
        match parse_string(s, at) {
            Some((c, e)) => Some((JsonValueV::Str(c), e)),
            None => None,
        }
    } else if 0 <= at < s.len() && s[at] == '{' {
        match parse_leaf_obj(s, at) {
            Some((ms, e)) => Some((JsonValueV::Obj(ms), e)),
            None => None,
        }
    } else {
        None
    }
}

pub proof fn lemma_parse_value(s: Seq<char>, at: int)
    requires
        0 <= at <= s.len(),
    ensures
        match parse_value(s, at) {
            Some(p) => at < p.1 <= s.len(),
            None => true,
        },
{
    lemma_parse_string(s, at);
    lemma_parse_leaf_obj(s, at);
}

/// The fields of the document object, starting at the first key, up to and
/// including the closing brace.
pub open spec fn parse_fields(s: Seq<char>, at: int) -> Option<
    (Seq<(Seq<char>, JsonValueV)>, int),
>
    decreases s.len() - at when 0 <= at <= s.len() via parse_fields_dec
{
    match parse_string(s, at) {
        None => None,
        Some((k, a1)) => {
            let a2 = skip_ws(s, a1);
            if a2 < s.len() && s[a2] == ':' {
                let a3 = skip_ws(s, a2 + 1);
                match parse_value(s, a3) {
                    None => None,
                    Some((v, a4)) => {
                        let a5 = skip_ws(s, a4);
                        if a5 < s.len() && s[a5] == ',' {
                            let a6 = skip_ws(s, a5 + 1);
                            match parse_fields(s, a6) {
                                Some((rest, e)) => Some((seq![(k, v)] + rest, e)),
                                None => None,
                            }
                        } else if a5 < s.len() && s[a5] == '}' {
                            Some((seq![(k, v)], a5 + 1))
                        } else {
                            None
                        }
                    },
                }
            } else {
                None
            }
        },
    }
}

#[via_fn]
proof fn parse_fields_dec(s: Seq<char>, at: int) {
    lemma_parse_string(s, at);
    match parse_string(s, at) {
        Some(p) => {
            lemma_skip_ws(s, p.1);
            let a2 = skip_ws(s, p.1);
            if a2 < s.len() && s[a2] == ':' {
                lemma_skip_ws(s, a2 + 1);
                let a3 = skip_ws(s, a2 + 1);
                lemma_parse_value(s, a3);
                match parse_value(s, a3) {
                    Some(q) => {
                        lemma_skip_ws(s, q.1);
                        let a5 = skip_ws(s, q.1);
                        if a5 < s.len() && s[a5] == ',' {
                            lemma_skip_ws(s, a5 + 1);
                        }
                    },
                    None => {},
                }
            }
        },
        None => {},
    }
}

pub proof fn lemma_parse_fields(s: Seq<char>, at: int)
    requires
        0 <= at <= s.len(),
    ensures
        match parse_fields(s, at) {
            Some(p) => at < p.1 <= s.len(),
            None => true,
        },
    decreases s.len() - at,
{
    lemma_parse_string(s, at);
    match parse_string(s, at) {
        Some(p) => {
            lemma_skip_ws(s, p.1);
            let a2 = skip_ws(s, p.1);
            if a2 < s.len() && s[a2] == ':' {
                lemma_skip_ws(s, a2 + 1);
                let a3 = skip_ws(s, a2 + 1);
                lemma_parse_value(s, a3);
                match parse_value(s, a3) {
                    Some(q) => {
                        lemma_skip_ws(s, q.1);
                        let a5 = skip_ws(s, q.1);
                        if a5 < s.len() && s[a5] == ',' {
                            lemma_skip_ws(s, a5 + 1);
                            lemma_parse_fields(s, skip_ws(s, a5 + 1));
                        }
                    },
                    None => {},
                }
            }
        },
        None => {},
    }
}

/// The whole text as one document: whitespace, one object, whitespace, end.
pub open spec fn parse_doc(s: Seq<char>) -> Option<JsonDocV> {
    let a0 = skip_ws(s, 0);
    if a0 < s.len() && s[a0] == '{' {
        let a1 = skip_ws(s, a0 + 1);
        if a1 < s.len() && s[a1] == '}' {
            if skip_ws(s, a1 + 1) == s.len() {
                Some(JsonDocV { fields: Seq::empty() })
            } else {
                None
            }
        } else {
            match parse_fields(s, a1) {
                Some((fs, e)) => {
                    if skip_ws(s, e) == s.len() {
                        Some(JsonDocV { fields: fs })
                    } else {
                        None
                    }
                },
                None => None,
            }
        }
    } else {
        None
    }
}

// --- the reader -------------------------------------------------------------

fn skip_ws_exec(s: &str, n: usize, at: usize) -> (r: usize)
    requires
        n == s@.len(),
        at <= n,
    ensures
        r as int == skip_ws(s@, at as int),
        at <= r <= n,
    decreases n - at,
{
    if at < n {
        let c = s.get_char(at);
        if c == ' ' || c == '\n' || c == '\t' || c == '\r' {
            return skip_ws_exec(s, n, at + 1);
        }
    }
    at
}

fn scan_string_exec(s: &str, n: usize, at: usize) -> (r: Option<usize>)
    requires
        n == s@.len(),
        at <= n,
    ensures
        match scan_string(s@, at as int) {
            Some(e) => r matches Some(re) && re as int == e,
            None => r is None,
        },
    decreases n - at,
{
    if at >= n {
        None
    } else {
        let c = s.get_char(at);
        if c == '"' {
            Some(at)
        } else if plain_char_exec(c) {
            scan_string_exec(s, n, at + 1)
        } else {
            None
        }
    }
}

fn parse_string_exec(s: &str, n: usize, at: usize) -> (r: Option<(String, usize)>)
    requires
        n == s@.len(),
        at <= n,
    ensures
        match parse_string(s@, at as int) {
            Some(p) => r matches Some(q) && q.0@ == p.0 && q.1 as int == p.1,
            None => r is None,
        },
{
    if at < n && s.get_char(at) == '"' {
        match scan_string_exec(s, n, at + 1) {
            Some(e) => {
                proof {
                    lemma_scan_string(s@, at + 1);
                }
                let content = s.substring_char(at + 1, e).to_owned();
                Some((content, e + 1))
            },
            None => None,
        }
    } else {
        None
    }
}

fn parse_leaf_members_exec(s: &str, n: usize, at: usize) -> (r: Option<(Vec<LeafMember>, usize)>)
    requires
        n == s@.len(),
        at <= n,
    ensures
        match parse_leaf_members(s@, at as int) {
            Some(p) => r matches Some(q) && Seq::new(q.0@.len(), |i: int| q.0@[i]@) == p.0
                && q.1 as int == p.1,
            None => r is None,
        },
    decreases n - at,
{
    match parse_string_exec(s, n, at) {
        None => None,
        Some((k, a1)) => {
            proof {
                lemma_parse_string(s@, at as int);
            }
            let a2 = skip_ws_exec(s, n, a1);
            if a2 < n && s.get_char(a2) == ':' {
                let a3 = skip_ws_exec(s, n, a2 + 1);
                match parse_string_exec(s, n, a3) {
                    None => None,
                    Some((v, a4)) => {
                        proof {
                            lemma_parse_string(s@, a3 as int);
                        }
                        let a5 = skip_ws_exec(s, n, a4);
                        if a5 < n && s.get_char(a5) == ',' {
                            let a6 = skip_ws_exec(s, n, a5 + 1);
                            match parse_leaf_members_exec(s, n, a6) {
                                Some((rest, e)) => {
                                    let ghost kv = k@;
                                    let ghost vv = v@;
                                    let ghost restv = Seq::new(
                                        rest@.len(),
                                        |i: int| rest@[i]@,
                                    );
                                    let mut ms = rest;
                                    ms.insert(0, LeafMember { key: k, value: v });
                                    proof {
                                        assert(Seq::new(ms@.len(), |i: int| ms@[i]@) =~= seq![
                                            (kv, vv),
                                        ] + restv);
                                    }
                                    Some((ms, e))
                                },
                                None => None,
                            }
                        } else if a5 < n && s.get_char(a5) == '}' {
                            let ghost kv = k@;
                            let ghost vv = v@;
                            let mut ms: Vec<LeafMember> = Vec::new();
                            ms.push(LeafMember { key: k, value: v });
                            proof {
                                assert(Seq::new(ms@.len(), |i: int| ms@[i]@) =~= seq![(kv, vv)]);
                            }
                            Some((ms, a5 + 1))
                        } else {
                            None
                        }
                    },
                }
            } else {
                None
            }
        },
    }
}

fn parse_leaf_obj_exec(s: &str, n: usize, at: usize) -> (r: Option<(Vec<LeafMember>, usize)>)
    requires
        n == s@.len(),
        at <= n,
    ensures
        match parse_leaf_obj(s@, at as int) {
            Some(p) => r matches Some(q) && Seq::new(q.0@.len(), |i: int| q.0@[i]@) == p.0
                && q.1 as int == p.1,
            None => r is None,
        },
{
    if at < n && s.get_char(at) == '{' {
        let a1 = skip_ws_exec(s, n, at + 1);
        if a1 < n && s.get_char(a1) == '}' {
            let ms: Vec<LeafMember> = Vec::new();
            proof {
                assert(Seq::new(ms@.len(), |i: int| ms@[i]@) =~= Seq::<(Seq<char>, Seq<
                    char,
                >)>::empty());
            }
            Some((ms, a1 + 1))
        } else {
            parse_leaf_members_exec(s, n, a1)
        }
    } else {
        None
    }
}

fn parse_value_exec(s: &str, n: usize, at: usize) -> (r: Option<(JsonValue, usize)>)
    requires
        n == s@.len(),
        at <= n,
    ensures
        match parse_value(s@, at as int) {
            Some(p) => r matches Some(q) && q.0@ == p.0 && q.1 as int == p.1,
            None => r is None,
        },
{
    if at < n && s.get_char(at) == '"' {
        match parse_string_exec(s, n, at) {
            Some((c, e)) => Some((JsonValue::Str(c), e)),
            None => None,
        }
    } else if at < n && s.get_char(at) == '{' {
        match parse_leaf_obj_exec(s, n, at) {
            Some((ms, e)) => Some((JsonValue::Obj(ms), e)),
            None => None,
        }
    } else {
        None
    }
}

fn parse_fields_exec(s: &str, n: usize, at: usize) -> (r: Option<(Vec<JsonField>, usize)>)
    requires
        n == s@.len(),
        at <= n,
    ensures
        match parse_fields(s@, at as int) {
            Some(p) => r matches Some(q) && Seq::new(q.0@.len(), |i: int| q.0@[i]@) == p.0
                && q.1 as int == p.1,
            None => r is None,
        },
    decreases n - at,
{
    match parse_string_exec(s, n, at) {
        None => None,
        Some((k, a1)) => {
            proof {
                lemma_parse_string(s@, at as int);
            }
            let a2 = skip_ws_exec(s, n, a1);
            if a2 < n && s.get_char(a2) == ':' {
                let a3 = skip_ws_exec(s, n, a2 + 1);
                match parse_value_exec(s, n, a3) {
                    None => None,
                    Some((v, a4)) => {
                        proof {
                            lemma_parse_value(s@, a3 as int);
                        }
                        let a5 = skip_ws_exec(s, n, a4);
                        if a5 < n && s.get_char(a5) == ',' {
                            let a6 = skip_ws_exec(s, n, a5 + 1);
                            match parse_fields_exec(s, n, a6) {
                                Some((rest, e)) => {
                                    let ghost kv = k@;
                                    let ghost vv = v@;
                                    let ghost restv = Seq::new(
                                        rest@.len(),
                                        |i: int| rest@[i]@,
                                    );
                                    let mut fs = rest;
                                    fs.insert(0, JsonField { key: k, value: v });
                                    proof {
                                        assert(Seq::new(fs@.len(), |i: int| fs@[i]@) =~= seq![
                                            (kv, vv),
                                        ] + restv);
                                    }
                                    Some((fs, e))
                                },
                                None => None,
                            }
                        } else if a5 < n && s.get_char(a5) == '}' {
                            let ghost kv = k@;
                            let ghost vv = v@;
                            let mut fs: Vec<JsonField> = Vec::new();
                            fs.push(JsonField { key: k, value: v });
                            proof {
                                assert(Seq::new(fs@.len(), |i: int| fs@[i]@) =~= seq![(kv, vv)]);
                            }
                            Some((fs, a5 + 1))
                        } else {
                            None
                        }
                    },
                }
            } else {
                None
            }
        },
    }
}

/// Reads the whole text as one document of this codec.
pub fn parse_doc_exec(s: &str) -> (r: Option<JsonDoc>)
    ensures
        match parse_doc(s@) {
            Some(d) => r matches Some(doc) && doc@ == d,
            None => r is None,
        },
{
    let n = s.unicode_len();
    let a0 = skip_ws_exec(s, n, 0);
    if a0 < n && s.get_char(a0) == '{' {
        let a1 = skip_ws_exec(s, n, a0 + 1);
        if a1 < n && s.get_char(a1) == '}' {
            if skip_ws_exec(s, n, a1 + 1) == n {
                let doc = JsonDoc { fields: Vec::new() };
                proof {
                    assert(doc@.fields =~= Seq::<(Seq<char>, JsonValueV)>::empty());
                }
                Some(doc)
            } else {
                None
            }
        } else {
            match parse_fields_exec(s, n, a1) {
                Some((fs, e)) => {
                    proof {
                        lemma_parse_fields(s@, a1 as int);
                    }
                    if skip_ws_exec(s, n, e) == n {
                        let doc = JsonDoc { fields: fs };
                        Some(doc)
                    } else {
                        None
                    }
                },
                None => None,
            }
        }
    } else {
        None
    }
}

} // verus!

verus! {

// --- field lookup -----------------------------------------------------------

/// If `key` first occurs at field `i`, the lookup yields that field's value.
pub proof fn lemma_doc_get_at_index(fields: Seq<(Seq<char>, JsonValueV)>, key: Seq<char>, i: int)
    requires
        0 <= i < fields.len(),
        fields[i].0 == key,
        forall|j: int| 0 <= j < i ==> fields[j].0 != key,
    ensures
        doc_get(fields, key) == Some(fields[i].1),
    decreases i,
{
    if i > 0 {
        lemma_doc_get_at_index(fields.drop_first(), key, i - 1);
    }
}

/// If no field bears `key`, the lookup yields nothing.
pub proof fn lemma_doc_get_absent(fields: Seq<(Seq<char>, JsonValueV)>, key: Seq<char>)
    requires
        forall|j: int| 0 <= j < fields.len() ==> fields[j].0 != key,
    ensures
        doc_get(fields, key) is None,
    decreases fields.len(),
{
    if fields.len() > 0 {
        lemma_doc_get_absent(fields.drop_first(), key);
    }
}

/// The value of the first field bearing `key`, if any.
pub fn doc_get_exec<'a>(doc: &'a JsonDoc, key: &str) -> (r: Option<&'a JsonValue>)
    ensures
        match doc_get(doc@.fields, key@) {
            Some(v) => r matches Some(rv) && rv@ == v,
            None => r is None,
        },
{
    let mut i: usize = 0;
    while i < doc.fields.len()
        invariant
            i <= doc.fields@.len(),
            forall|j: int| 0 <= j < i ==> doc.fields@[j]@.0 != key@,
        decreases doc.fields@.len() - i,
    {
        if crate::text::str_eq(doc.fields[i].key.as_str(), key) {
            proof {
                lemma_doc_get_at_index(doc@.fields, key@, i as int);
            }
            return Some(&doc.fields[i].value);
        }
        i += 1;
    }
    proof {
        lemma_doc_get_absent(doc@.fields, key@);
    }
    None
}

} // verus!

verus! {

// --- rendering --------------------------------------------------------------

/// The canonical rendering of a string literal.
pub open spec fn render_string_v(c: Seq<char>) -> Seq<char> {
    seq!['"'] + c + seq!['"']
}

/// The canonical rendering of one leaf member.
pub open spec fn render_leaf_member_v(m: (Seq<char>, Seq<char>)) -> Seq<char> {
    render_string_v(m.0) + seq![':'] + render_string_v(m.1)
}

/// The canonical rendering of a leaf object's members, comma-separated.
pub open spec fn render_leaf_members_v(ms: Seq<(Seq<char>, Seq<char>)>) -> Seq<char>
    decreases ms.len(),
{
    if ms.len() == 0 {
        Seq::empty()
    } else if ms.len() == 1 {
        render_leaf_member_v(ms[0])
    } else {
        render_leaf_member_v(ms[0]) + seq![','] + render_leaf_members_v(ms.drop_first())
    }
}

/// The canonical rendering of a leaf object.
pub open spec fn render_leaf_obj_v(ms: Seq<(Seq<char>, Seq<char>)>) -> Seq<char> {
    seq!['{'] + render_leaf_members_v(ms) + seq!['}']
}

/// The canonical rendering of a field value.
pub open spec fn render_value_v(v: JsonValueV) -> Seq<char> {
    match v {
        JsonValueV::Str(c) => render_string_v(c),
        JsonValueV::Obj(ms) => render_leaf_obj_v(ms),
    }
}

/// The canonical rendering of one document field.
pub open spec fn render_field_v(f: (Seq<char>, JsonValueV)) -> Seq<char> {
    render_string_v(f.0) + seq![':'] + render_value_v(f.1)
}

/// The canonical rendering of the document's fields, comma-separated.
pub open spec fn render_fields_v(fs: Seq<(Seq<char>, JsonValueV)>) -> Seq<char>
    decreases fs.len(),
{
    if fs.len() == 0 {
        Seq::empty()
    } else if fs.len() == 1 {
        render_field_v(fs[0])
    } else {
        render_field_v(fs[0]) + seq![','] + render_fields_v(fs.drop_first())
    }
}

/// The canonical rendering of a whole document.
pub open spec fn render_doc_v(d: JsonDocV) -> Seq<char> {
    seq!['{'] + render_fields_v(d.fields) + seq!['}']
}

/// A value whose rendering parses back: all strings in it are plain.
pub open spec fn value_encodable(v: JsonValueV) -> bool {
    match v {
        JsonValueV::Str(c) => encodable(c),
        JsonValueV::Obj(ms) => forall|i: int|
            0 <= i < ms.len() ==> encodable((#[trigger] ms[i]).0) && encodable(ms[i].1),
    }
}

/// A document whose rendering parses back: all strings in it are plain.
pub open spec fn doc_encodable(d: JsonDocV) -> bool {
    forall|i: int|
        0 <= i < d.fields.len() ==> encodable((#[trigger] d.fields[i]).0) && value_encodable(
            d.fields[i].1,
        )
}

// --- the writer -------------------------------------------------------------

/// Appends the rendering of a string literal.
fn append_string_literal(out: &mut String, s: &str)
    ensures
        final(out)@ == old(out)@ + render_string_v(s@),
{
    out.append("\"");
    out.append(s);
    out.append("\"");
    proof {
        reveal_strlit("\"");
        assert("\""@ =~= seq!['"']);
        assert(out@ =~= old(out)@ + render_string_v(s@));
    }
}

/// One member's rendering appended on the right extends the members' rendering.
proof fn lemma_render_leaf_members_snoc(ms: Seq<(Seq<char>, Seq<char>)>, m: (Seq<char>, Seq<char>))
    requires
        ms.len() > 0,
    ensures
        render_leaf_members_v(ms.push(m)) =~= render_leaf_members_v(ms) + seq![',']
            + render_leaf_member_v(m),
    decreases ms.len(),
{
    reveal_with_fuel(render_leaf_members_v, 3);
    if ms.len() == 1 {
        assert(ms.push(m).drop_first() =~= seq![m]);
        assert(ms.push(m)[0] == ms[0]);
    } else {
        lemma_render_leaf_members_snoc(ms.drop_first(), m);
        assert(ms.push(m).drop_first() =~= ms.drop_first().push(m));
        assert(ms.push(m)[0] == ms[0]);
    }
}

/// One field's rendering appended on the right extends the fields' rendering.
proof fn lemma_render_fields_snoc(fs: Seq<(Seq<char>, JsonValueV)>, f: (Seq<char>, JsonValueV))
    requires
        fs.len() > 0,
    ensures
        render_fields_v(fs.push(f)) =~= render_fields_v(fs) + seq![','] + render_field_v(f),
    decreases fs.len(),
{
    reveal_with_fuel(render_fields_v, 3);
    if fs.len() == 1 {
        assert(fs.push(f).drop_first() =~= seq![f]);
        assert(fs.push(f)[0] == fs[0]);
    } else {
        lemma_render_fields_snoc(fs.drop_first(), f);
        assert(fs.push(f).drop_first() =~= fs.drop_first().push(f));
        assert(fs.push(f)[0] == fs[0]);
    }
}

/// Appends the rendering of a leaf object.
fn append_leaf_obj(out: &mut String, ms: &Vec<LeafMember>)
    ensures
        final(out)@ == old(out)@ + render_leaf_obj_v(Seq::new(ms@.len(), |i: int| ms@[i]@)),
{
    let ghost msv = Seq::new(ms@.len(), |i: int| ms@[i]@);
    out.append("{");
    let mut i: usize = 0;
    while i < ms.len()
        invariant
            i <= ms@.len(),
            msv == Seq::new(ms@.len(), |k: int| ms@[k]@),
            out@ == old(out)@ + "{"@ + render_leaf_members_v(msv.take(i as int)),
        decreases ms@.len() - i,
    {
        let ghost sofar = msv.take(i as int);
        if i > 0 {
            out.append(",");
        }
        append_string_literal(out, ms[i].key.as_str());
        out.append(":");
        append_string_literal(out, ms[i].value.as_str());
        proof {
            reveal_strlit(",");
            reveal_strlit(":");
            assert(","@ =~= seq![',']);
            assert(":"@ =~= seq![':']);
            assert(msv.take(i + 1) =~= sofar.push(msv[i as int]));
            if i == 0 {
                assert(msv.take(1int)[0] == msv[0]);
                assert(out@ =~= old(out)@ + "{"@ + render_leaf_members_v(msv.take(1int)));
            } else {
                lemma_render_leaf_members_snoc(sofar, msv[i as int]);
                assert(out@ =~= old(out)@ + "{"@ + render_leaf_members_v(msv.take(i + 1)));
            }
        }
        i += 1;
    }
    out.append("}");
    proof {
        reveal_strlit("{");
        reveal_strlit("}");
        assert(msv.take(msv.len() as int) =~= msv);
        assert("{"@ =~= seq!['{']);
        assert("}"@ =~= seq!['}']);
        assert(out@ =~= old(out)@ + render_leaf_obj_v(msv));
    }
}

/// Appends the rendering of a field value.
fn append_value(out: &mut String, v: &JsonValue)
    ensures
        final(out)@ == old(out)@ + render_value_v(v@),
{
    match v {
        JsonValue::Str(c) => append_string_literal(out, c.as_str()),
        JsonValue::Obj(ms) => append_leaf_obj(out, ms),
    }
}

/// The canonical text of a document.
pub fn render_doc_exec(doc: &JsonDoc) -> (r: String)
    ensures
        r@ == render_doc_v(doc@),
{
    let ghost fsv = doc@.fields;
    let mut out = String::new();
    out.append("{");
    let mut i: usize = 0;
    while i < doc.fields.len()
        invariant
            i <= doc.fields@.len(),
            fsv == Seq::new(doc.fields@.len(), |k: int| doc.fields@[k]@),
            out@ == "{"@ + render_fields_v(fsv.take(i as int)),
        decreases doc.fields@.len() - i,
    {
        let ghost sofar = fsv.take(i as int);
        if i > 0 {
            out.append(",");
        }
        append_string_literal(&mut out, doc.fields[i].key.as_str());
        out.append(":");
        append_value(&mut out, &doc.fields[i].value);
        proof {
            reveal_strlit(",");
            reveal_strlit(":");
            assert(","@ =~= seq![',']);
            assert(":"@ =~= seq![':']);
            assert(fsv.take(i + 1) =~= sofar.push(fsv[i as int]));
            if i == 0 {
                assert(fsv.take(1int)[0] == fsv[0]);
                assert(out@ =~= "{"@ + render_fields_v(fsv.take(1int)));
            } else {
                lemma_render_fields_snoc(sofar, fsv[i as int]);
                assert(out@ =~= "{"@ + render_fields_v(fsv.take(i + 1)));
            }
        }
        i += 1;
    }
    out.append("}");
    proof {
        reveal_strlit("{");
        reveal_strlit("}");
        assert(fsv.take(fsv.len() as int) =~= fsv);
        assert("{"@ =~= seq!['{']);
        assert("}"@ =~= seq!['}']);
        assert(out@ =~= render_doc_v(doc@));
    }
    out
}

} // verus!

verus! {

// --- parsing inverts rendering ----------------------------------------------

/// `r` occupies the positions `at .. at + r.len()` of `s`.
pub open spec fn occupies(s: Seq<char>, at: int, r: Seq<char>) -> bool {
    0 <= at && at + r.len() <= s.len() && s.subrange(at, at + r.len()) == r
}

proof fn lemma_occupies_index(s: Seq<char>, at: int, r: Seq<char>)
    requires
        occupies(s, at, r),
    ensures
        forall|m: int| 0 <= m < r.len() ==> s[at + m] == #[trigger] r[m],
{
    assert forall|m: int| 0 <= m < r.len() implies s[at + m] == #[trigger] r[m] by {
        assert(s.subrange(at, at + r.len())[m] == s[at + m]);
    }
}

proof fn lemma_occupies_split(s: Seq<char>, at: int, a: Seq<char>, b: Seq<char>)
    requires
        occupies(s, at, a + b),
    ensures
        occupies(s, at, a),
        occupies(s, at + a.len(), b),
{
    lemma_occupies_index(s, at, a + b);
    assert forall|m: int| 0 <= m < a.len() implies s.subrange(at, at + a.len())[m] == a[m] by {
        assert(s[at + m] == (a + b)[m]);
    }
    assert(s.subrange(at, at + a.len()) =~= a);
    assert forall|m: int|
        0 <= m < b.len() implies s.subrange(at + a.len(), at + a.len() + b.len())[m] == b[m] by {
        assert(s[at + a.len() + m] == (a + b)[a.len() + m]);
    }
    assert(s.subrange(at + a.len(), at + a.len() + b.len()) =~= b);
}

proof fn lemma_occupies_char(s: Seq<char>, at: int, c: char)
    requires
        occupies(s, at, seq![c]),
    ensures
        s[at] == c,
{
    lemma_occupies_index(s, at, seq![c]);
    assert(seq![c][0] == c);
    assert(s[at + 0] == seq![c][0]);
}

proof fn lemma_scan_plain(s: Seq<char>, from: int, e: int)
    requires
        0 <= from <= e < s.len(),
        forall|j: int| from <= j < e ==> plain_char(#[trigger] s[j]),
        s[e] == '"',
    ensures
        scan_string(s, from) == Some(e),
    decreases e - from,
{
    if from < e {
        lemma_scan_plain(s, from + 1, e);
    }
}

proof fn lemma_parse_string_render(s: Seq<char>, at: int, c: Seq<char>)
    requires
        encodable(c),
        occupies(s, at, render_string_v(c)),
    ensures
        parse_string(s, at) == Some((c, at + c.len() + 2)),
{
    let r = render_string_v(c);
    lemma_occupies_index(s, at, r);
    assert(r[0] == '"');
    assert(s[at] == '"');
    assert(r[c.len() as int + 1] == '"');
    assert(s[at + 1 + c.len()] == '"');
    assert forall|j: int| at + 1 <= j < at + 1 + c.len() implies plain_char(#[trigger] s[j]) by {
        assert(s[j] == r[j - at]);
        assert(r[j - at] == c[j - at - 1]);
    }
    lemma_scan_plain(s, at + 1, at + 1 + c.len());
    assert forall|m: int| 0 <= m < c.len() implies s.subrange(at + 1, at + 1 + c.len())[m]
        == c[m] by {
        assert(s[at + 1 + m] == r[1 + m]);
        assert(r[1 + m] == c[m]);
    }
    assert(s.subrange(at + 1, at + 1 + c.len()) =~= c);
}

/// A nonempty member list's rendering begins with a quote.
proof fn lemma_render_members_first(ms: Seq<(Seq<char>, Seq<char>)>)
    requires
        ms.len() > 0,
    ensures
        render_leaf_members_v(ms).len() > 0,
        render_leaf_members_v(ms)[0] == '"',
{
    assert(render_leaf_member_v(ms[0])[0] == '"');
}

proof fn lemma_parse_leaf_members_render(s: Seq<char>, at: int, ms: Seq<(Seq<char>, Seq<char>)>)
    requires
        ms.len() >= 1,
        forall|i: int| 0 <= i < ms.len() ==> encodable((#[trigger] ms[i]).0) && encodable(ms[i].1),
        occupies(s, at, render_leaf_members_v(ms)),
        at + render_leaf_members_v(ms).len() < s.len(),
        s[at + render_leaf_members_v(ms).len()] == '}',
    ensures
        parse_leaf_members(s, at) == Some((ms, at + render_leaf_members_v(ms).len() + 1)),
    decreases ms.len(),
{
    let m0 = ms[0];
    let rk = render_string_v(m0.0);
    let rv = render_string_v(m0.1);
    let rm = render_leaf_member_v(m0);
    let rms = render_leaf_members_v(ms);
    assert(rm =~= (rk + seq![':']) + rv);
    if ms.len() == 1 {
        assert(rms == rm);
        lemma_occupies_split(s, at, rk + seq![':'], rv);
        lemma_occupies_split(s, at, rk, seq![':']);
        lemma_parse_string_render(s, at, m0.0);
        let a1 = at + m0.0.len() + 2;
        lemma_occupies_char(s, a1, ':');
        assert(skip_ws(s, a1) == a1);
        lemma_occupies_index(s, a1 + 1, rv);
        assert(s[a1 + 1] == rv[0]);
        assert(skip_ws(s, a1 + 1) == a1 + 1);
        lemma_parse_string_render(s, a1 + 1, m0.1);
        let a4 = a1 + 1 + m0.1.len() + 2;
        assert(a4 == at + rms.len());
        assert(s[a4] == '}');
        assert(skip_ws(s, a4) == a4);
        assert(ms =~= seq![(m0.0, m0.1)]);
    } else {
        let rrest = render_leaf_members_v(ms.drop_first());
        assert(rms == (rm + seq![',']) + rrest);
        lemma_occupies_split(s, at, rm + seq![','], rrest);
        lemma_occupies_split(s, at, rm, seq![',']);
        assert((rk + seq![':']) + (rv + seq![',']) =~= rm + seq![',']);
        lemma_occupies_split(s, at, rk + seq![':'], rv + seq![',']);
        lemma_occupies_split(s, at, rk, seq![':']);
        lemma_occupies_split(s, at + rk.len() + 1, rv, seq![',']);
        lemma_parse_string_render(s, at, m0.0);
        let a1 = at + m0.0.len() + 2;
        lemma_occupies_char(s, a1, ':');
        assert(skip_ws(s, a1) == a1);
        lemma_occupies_index(s, a1 + 1, rv);
        assert(s[a1 + 1] == rv[0]);
        assert(skip_ws(s, a1 + 1) == a1 + 1);
        lemma_parse_string_render(s, a1 + 1, m0.1);
        let a4 = a1 + 1 + m0.1.len() + 2;
        assert(a4 == at + rm.len());
        lemma_occupies_char(s, a4, ',');
        assert(skip_ws(s, a4) == a4);
        lemma_render_members_first(ms.drop_first());
        lemma_occupies_index(s, a4 + 1, rrest);
        assert(s[a4 + 1] == rrest[0]);
        assert(skip_ws(s, a4 + 1) == a4 + 1);
        assert forall|i: int|
            0 <= i < ms.drop_first().len() implies encodable((#[trigger] ms.drop_first()[i]).0)
                && encodable(ms.drop_first()[i].1) by {
            assert(ms.drop_first()[i] == ms[i + 1]);
        }
        lemma_parse_leaf_members_render(s, a4 + 1, ms.drop_first());
        assert(seq![(m0.0, m0.1)] + ms.drop_first() =~= ms);
    }
}

proof fn lemma_parse_leaf_obj_render(s: Seq<char>, at: int, ms: Seq<(Seq<char>, Seq<char>)>)
    requires
        forall|i: int| 0 <= i < ms.len() ==> encodable((#[trigger] ms[i]).0) && encodable(ms[i].1),
        occupies(s, at, render_leaf_obj_v(ms)),
    ensures
        parse_leaf_obj(s, at) == Some((ms, at + render_leaf_obj_v(ms).len())),
{
    let rms = render_leaf_members_v(ms);
    let robj = render_leaf_obj_v(ms);
    assert(robj == (seq!['{'] + rms) + seq!['}']);
    lemma_occupies_split(s, at, seq!['{'] + rms, seq!['}']);
    lemma_occupies_split(s, at, seq!['{'], rms);
    lemma_occupies_char(s, at, '{');
    lemma_occupies_char(s, at + 1 + rms.len() as int, '}');
    assert(s[at + 1 + rms.len()] == '}');
    if ms.len() == 0 {
        assert(rms.len() == 0);
        assert(s[at + 1] == '}');
        assert(skip_ws(s, at + 1) == at + 1);
        assert(ms =~= Seq::<(Seq<char>, Seq<char>)>::empty());
    } else {
        lemma_render_members_first(ms);
        lemma_occupies_index(s, at + 1, rms);
        assert(s[at + 1] == rms[0]);
        assert(skip_ws(s, at + 1) == at + 1);
        lemma_parse_leaf_members_render(s, at + 1, ms);
    }
}

proof fn lemma_parse_value_render(s: Seq<char>, at: int, v: JsonValueV)
    requires
        value_encodable(v),
        occupies(s, at, render_value_v(v)),
    ensures
        parse_value(s, at) == Some((v, at + render_value_v(v).len())),
{
    match v {
        JsonValueV::Str(c) => {
            lemma_occupies_index(s, at, render_string_v(c));
            assert(render_string_v(c)[0] == '"');
            assert(s[at] == '"');
            lemma_parse_string_render(s, at, c);
        },
        JsonValueV::Obj(ms) => {
            lemma_occupies_index(s, at, render_leaf_obj_v(ms));
            assert(render_leaf_obj_v(ms)[0] == '{');
            assert(s[at] == '{');
            lemma_parse_leaf_obj_render(s, at, ms);
        },
    }
}

/// A nonempty field list's rendering begins with a quote.
proof fn lemma_render_fields_first(fs: Seq<(Seq<char>, JsonValueV)>)
    requires
        fs.len() > 0,
    ensures
        render_fields_v(fs).len() > 0,
        render_fields_v(fs)[0] == '"',
{
    assert(render_field_v(fs[0])[0] == '"');
}

proof fn lemma_parse_fields_render(s: Seq<char>, at: int, fs: Seq<(Seq<char>, JsonValueV)>)
    requires
        fs.len() >= 1,
        forall|i: int|
            0 <= i < fs.len() ==> encodable((#[trigger] fs[i]).0) && value_encodable(fs[i].1),
        occupies(s, at, render_fields_v(fs)),
        at + render_fields_v(fs).len() < s.len(),
        s[at + render_fields_v(fs).len()] == '}',
    ensures
        parse_fields(s, at) == Some((fs, at + render_fields_v(fs).len() + 1)),
    decreases fs.len(),
{
    let f0 = fs[0];
    let rk = render_string_v(f0.0);
    let rv = render_value_v(f0.1);
    let rf = render_field_v(f0);
    let rfs = render_fields_v(fs);
    assert(rf =~= (rk + seq![':']) + rv);
    if fs.len() == 1 {
        assert(rfs == rf);
        lemma_occupies_split(s, at, rk + seq![':'], rv);
        lemma_occupies_split(s, at, rk, seq![':']);
        lemma_parse_string_render(s, at, f0.0);
        let a1 = at + f0.0.len() + 2;
        lemma_occupies_char(s, a1, ':');
        assert(skip_ws(s, a1) == a1);
        lemma_parse_value_render(s, a1 + 1, f0.1);
        assert(render_value_v(f0.1)[0] == '"' || render_value_v(f0.1)[0] == '{') by {
            match f0.1 {
                JsonValueV::Str(c) => assert(render_string_v(c)[0] == '"'),
                JsonValueV::Obj(ms) => assert(render_leaf_obj_v(ms)[0] == '{'),
            }
        }
        lemma_occupies_index(s, a1 + 1, rv);
        assert(s[a1 + 1] == rv[0]);
        assert(skip_ws(s, a1 + 1) == a1 + 1);
        let a4 = a1 + 1 + rv.len();
        assert(a4 == at + rfs.len());
        assert(s[a4] == '}');
        assert(skip_ws(s, a4) == a4);
        assert(fs =~= seq![(f0.0, f0.1)]);
    } else {
        let rrest = render_fields_v(fs.drop_first());
        assert(rfs == (rf + seq![',']) + rrest);
        lemma_occupies_split(s, at, rf + seq![','], rrest);
        lemma_occupies_split(s, at, rf, seq![',']);
        assert((rk + seq![':']) + (rv + seq![',']) =~= rf + seq![',']);
        lemma_occupies_split(s, at, rk + seq![':'], rv + seq![',']);
        lemma_occupies_split(s, at, rk, seq![':']);
        lemma_occupies_split(s, at + rk.len() + 1, rv, seq![',']);
        lemma_parse_string_render(s, at, f0.0);
        let a1 = at + f0.0.len() + 2;
        lemma_occupies_char(s, a1, ':');
        assert(skip_ws(s, a1) == a1);
        lemma_parse_value_render(s, a1 + 1, f0.1);
        assert(render_value_v(f0.1)[0] == '"' || render_value_v(f0.1)[0] == '{') by {
            match f0.1 {
                JsonValueV::Str(c) => assert(render_string_v(c)[0] == '"'),
                JsonValueV::Obj(ms) => assert(render_leaf_obj_v(ms)[0] == '{'),
            }
        }
        lemma_occupies_index(s, a1 + 1, rv);
        assert(s[a1 + 1] == rv[0]);
        assert(skip_ws(s, a1 + 1) == a1 + 1);
        let a4 = a1 + 1 + rv.len();
        assert(a4 == at + rf.len());
        lemma_occupies_char(s, a4, ',');
        assert(skip_ws(s, a4) == a4);
        lemma_render_fields_first(fs.drop_first());
        lemma_occupies_index(s, a4 + 1, rrest);
        assert(s[a4 + 1] == rrest[0]);
        assert(skip_ws(s, a4 + 1) == a4 + 1);
        assert forall|i: int|
            0 <= i < fs.drop_first().len() implies encodable((#[trigger] fs.drop_first()[i]).0)
                && value_encodable(fs.drop_first()[i].1) by {
            assert(fs.drop_first()[i] == fs[i + 1]);
        }
        lemma_parse_fields_render(s, a4 + 1, fs.drop_first());
        assert(seq![(f0.0, f0.1)] + fs.drop_first() =~= fs);
    }
}

/// Reading back the canonical text of an encodable document yields the
/// document itself.
pub proof fn lemma_parse_render_doc(d: JsonDocV)
    requires
        doc_encodable(d),
    ensures
        parse_doc(render_doc_v(d)) == Some(d),
{
    let rfs = render_fields_v(d.fields);
    let s = render_doc_v(d);
    assert(s == (seq!['{'] + rfs) + seq!['}']);
    assert(s.subrange(0, s.len() as int) =~= s);
    lemma_occupies_split(s, 0, seq!['{'] + rfs, seq!['}']);
    lemma_occupies_split(s, 0, seq!['{'], rfs);
    lemma_occupies_char(s, 0, '{');
    assert(skip_ws(s, 0) == 0);
    lemma_occupies_char(s, 1 + rfs.len() as int, '}');
    assert(s[1 + rfs.len() as int] == '}');
    if d.fields.len() == 0 {
        assert(rfs.len() == 0);
        assert(s[1] == '}');
        assert(skip_ws(s, 1) == 1);
        assert(skip_ws(s, 2) == s.len());
        assert(d.fields =~= Seq::<(Seq<char>, JsonValueV)>::empty());
        assert(parse_doc(s) == Some(JsonDocV { fields: d.fields }));
    } else {
        lemma_render_fields_first(d.fields);
        lemma_occupies_index(s, 1, rfs);
        assert(s[1] == rfs[0]);
        assert(skip_ws(s, 1) == 1);
        assert forall|i: int|
            0 <= i < d.fields.len() implies encodable((#[trigger] d.fields[i]).0)
                && value_encodable(d.fields[i].1) by {
            assert(doc_encodable(d));
        }
        lemma_parse_fields_render(s, 1, d.fields);
        assert(skip_ws(s, s.len() as int) == s.len());
        assert(parse_doc(s) == Some(JsonDocV { fields: d.fields }));
    }
    assert(JsonDocV { fields: d.fields } == d);
}

} // verus!

verus! {

// --- leaf member lookup -------------------------------------------------------

/// The value of the first member bearing `key`, if any.
pub open spec fn leaf_get(ms: Seq<(Seq<char>, Seq<char>)>, key: Seq<char>) -> Option<Seq<char>>
    decreases ms.len(),
{
    if ms.len() == 0 {
        None
    } else if ms[0].0 == key {
        Some(ms[0].1)
    } else {
        leaf_get(ms.drop_first(), key)
    }
}

/// If `key` first occurs at member `i`, the lookup yields that member's value.
pub proof fn lemma_leaf_get_at_index(ms: Seq<(Seq<char>, Seq<char>)>, key: Seq<char>, i: int)
    requires
        0 <= i < ms.len(),
        ms[i].0 == key,
        forall|j: int| 0 <= j < i ==> ms[j].0 != key,
    ensures
        leaf_get(ms, key) == Some(ms[i].1),
    decreases i,
{
    if i > 0 {
        lemma_leaf_get_at_index(ms.drop_first(), key, i - 1);
    }
}

/// If no member bears `key`, the lookup yields nothing.
pub proof fn lemma_leaf_get_absent(ms: Seq<(Seq<char>, Seq<char>)>, key: Seq<char>)
    requires
        forall|j: int| 0 <= j < ms.len() ==> ms[j].0 != key,
    ensures
        leaf_get(ms, key) is None,
    decreases ms.len(),
{
    if ms.len() > 0 {
        lemma_leaf_get_absent(ms.drop_first(), key);
    }
}

/// The value of the first member bearing `key`, if any.
pub fn leaf_get_exec<'a>(ms: &'a Vec<LeafMember>, key: &str) -> (r: Option<&'a String>)
    ensures
        match leaf_get(Seq::new(ms@.len(), |i: int| ms@[i]@), key@) {
            Some(v) => r matches Some(rv) && rv@ == v,
            None => r is None,
        },
{
    let ghost msv = Seq::new(ms@.len(), |i: int| ms@[i]@);
    let mut i: usize = 0;
    while i < ms.len()
        invariant
            i <= ms@.len(),
            msv == Seq::new(ms@.len(), |k: int| ms@[k]@),
            forall|j: int| 0 <= j < i ==> msv[j].0 != key@,
        decreases ms@.len() - i,
    {
        if crate::text::str_eq(ms[i].key.as_str(), key) {
            proof {
                lemma_leaf_get_at_index(msv, key@, i as int);
            }
            return Some(&ms[i].value);
        }
        i += 1;
    }
    proof {
        lemma_leaf_get_absent(msv, key@);
    }
    None
}

} // verus!
