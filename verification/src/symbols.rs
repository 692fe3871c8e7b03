//! Enumerate named callable declarations.
//!
//! `documentSymbol` is not a list of callables. tsserver synthesizes entries
//! for anonymous callbacks (`expect() callback`, `test("x") callback`), which
//! `prepareCallHierarchy` correctly refuses. Crawling them is pure waste.

use crate::graph::opt_view;
use crate::json::{field, field_of, get_opt, str_of, u64_of, JsonValue};
use crate::text::{char_index_from, find_char, str_chars, str_is_empty, string_from_chars};
use crate::uri::{parse_url, url_parse};
use vstd::prelude::*;
use vstd::slice::slice_subrange;

verus! {

/// The kind of a symbol, as the Language Server Protocol numbers them.
#[allow(non_camel_case_types)]
#[derive(Debug, Clone, Copy, PartialEq, Eq, Structural)]
pub enum SymbolKind {
    FILE,
    MODULE,
    NAMESPACE,
    PACKAGE,
    CLASS,
    METHOD,
    PROPERTY,
    FIELD,
    CONSTRUCTOR,
    ENUM,
    INTERFACE,
    FUNCTION,
    VARIABLE,
    CONSTANT,
    STRING,
    NUMBER,
    BOOLEAN,
    ARRAY,
    OBJECT,
    KEY,
    NULL,
    ENUM_MEMBER,
    STRUCT,
    EVENT,
    OPERATOR,
    TYPE_PARAMETER,
    /// A number outside the protocol's list.
    Other(i32),
}

/// A position in a document: zero-based line and character.
#[derive(Debug, Clone, Copy, PartialEq, Eq, Structural)]
pub struct Position {
    pub line: u32,
    pub character: u32,
}

impl Default for Position {
    fn default() -> (r: Position)
        ensures
            r == (Position { line: 0, character: 0 }),
    {
        Position { line: 0, character: 0 }
    }
}

/// A `documentSymbol` entry: what enumeration reads of it.
#[derive(Debug)]
pub struct DocumentSymbol {
    pub name: String,
    pub kind: SymbolKind,
    /// Start of the range that names the symbol.
    pub selection_start: Position,
    pub children: Option<Vec<DocumentSymbol>>,
}

#[derive(Debug, Clone, PartialEq)]
pub struct NamedCallable {
    pub name: String,
    pub uri: String,
    pub position: Position,
}

pub type CallableView = (Seq<char>, Seq<char>, Position);

impl View for NamedCallable {
    type V = CallableView;

    open spec fn view(&self) -> CallableView {
        (self.name@, self.uri@, self.position)
    }
}

/// What `char::is_alphabetic` answers: the Unicode `Alphabetic` property.
pub uninterp spec fn unicode_alphabetic(c: char) -> bool;

/// What `char::is_alphanumeric` answers: `Alphabetic` or `Numeric`.
pub uninterp spec fn unicode_alphanumeric(c: char) -> bool;

/// An ASCII letter, `A`-`Z` or `a`-`z`.
pub open spec fn ascii_letter(c: char) -> bool {
    (0x41 <= (c as u32) <= 0x5a) || (0x61 <= (c as u32) <= 0x7a)
}

/// An ASCII digit, `0`-`9`.
pub open spec fn ascii_digit(c: char) -> bool {
    0x30 <= (c as u32) <= 0x39
}

/// `char::is_alphabetic`. Whether a character is alphabetic is the Unicode
/// database's table, named here and not restated; among ASCII characters
/// it holds of the letters exactly.
#[verifier::external_body]
fn char_is_alphabetic(c: char) -> (r: bool)
    ensures
        r == unicode_alphabetic(c),
        (c as u32) < 0x80 ==> (r <==> ascii_letter(c)),
{
    c.is_alphabetic()
}

/// `char::is_alphanumeric`: true of every alphabetic character, and of the
/// numeric ones, by the Unicode database's tables; among ASCII characters
/// it holds of the letters and digits exactly.
#[verifier::external_body]
fn char_is_alphanumeric(c: char) -> (r: bool)
    ensures
        r == unicode_alphanumeric(c),
        unicode_alphabetic(c) ==> r,
        (c as u32) < 0x80 ==> (r <==> (ascii_letter(c) || ascii_digit(c))),
{
    c.is_alphanumeric()
}

/// Is `c` alphabetic (`char::is_alphabetic`): among ASCII characters the
/// letters, elsewhere the Unicode table.
pub open spec fn alphabetic(c: char) -> bool {
    if (c as u32) < 0x80 {
        ascii_letter(c)
    } else {
        unicode_alphabetic(c)
    }
}

/// Is `c` alphanumeric (`char::is_alphanumeric`): among ASCII characters
/// the letters and digits, elsewhere the Unicode tables.
pub open spec fn alphanumeric(c: char) -> bool {
    if (c as u32) < 0x80 {
        ascii_letter(c) || ascii_digit(c)
    } else {
        unicode_alphanumeric(c)
    }
}

pub open spec fn ident_start(c: char) -> bool {
    alphabetic(c) || c == '_' || c == '$'
}

pub open spec fn ident_continue(c: char) -> bool {
    alphanumeric(c) || c == '_' || c == '$'
}

/// A single unqualified identifier: a letter, `_` or `$`, then letters,
/// digits, `_` or `$` (letters and digits in the Unicode sense).
pub open spec fn plain_identifier(s: Seq<char>) -> bool {
    s.len() > 0 && ident_start(s[0]) && forall|i: int| 1 <= i < s.len() ==> ident_continue(#[trigger] s[i])
}

/// Every `.`-separated segment of `s` is a plain identifier
/// (`s.split('.').all(is_plain_identifier)`).
pub open spec fn dotted_identifiers(s: Seq<char>) -> bool
    decreases s.len(),
{
    match char_index_from(s, '.', 0) {
        None => plain_identifier(s),
        Some(i) => {
            proof {
                crate::text::lemma_char_index_from(s, '.', 0);
            }
            plain_identifier(s.take(i as int)) && dotted_identifiers(s.skip(i + 1 as int))
        },
    }
}

/// What must be a dotted identifier once a leading parenthesised receiver
/// (`(*counter)` or `(counter)`) is stripped, or `None` when that receiver is
/// malformed.
pub open spec fn unqualified_part(name: Seq<char>) -> Option<Seq<char>> {
    if name.len() > 0 && name[0] == '(' {
        let after = name.skip(1);
        match char_index_from(after, ')', 0) {
            None => None,
            Some(close) => {
                let recv = after.take(close as int);
                let receiver = if recv.len() > 0 && recv[0] == '*' {
                    recv.skip(1)
                } else {
                    recv
                };
                if !plain_identifier(receiver) {
                    None
                } else {
                    let tail = after.skip(close + 1 as int);
                    Some(
                        if tail.len() > 0 && tail[0] == '.' {
                            tail.skip(1)
                        } else {
                            Seq::empty()
                        },
                    )
                }
            },
        }
    } else {
        Some(name)
    }
}

/// A function or method whose name is an identifier, possibly qualified
/// (`counter.bump`, `(*counter).bump`).
pub open spec fn named_callable(name: Seq<char>, kind: SymbolKind) -> bool {
    &&& (kind == SymbolKind::FUNCTION || kind == SymbolKind::METHOD)
    &&& match unqualified_part(name) {
        Some(rest) => rest.len() > 0 && dotted_identifiers(rest),
        None => false,
    }
}

fn chars_are_plain_identifier(s: &[char]) -> (r: bool)
    ensures
        r == plain_identifier(s@),
{
    if s.len() == 0 {
        return false;
    }
    let first = s[0];
    if !(char_is_alphabetic(first) || first == '_' || first == '$') {
        return false;
    }
    let mut i: usize = 1;
    while i < s.len()
        invariant
            1 <= i <= s@.len(),
            forall|j: int| 1 <= j < i ==> ident_continue(#[trigger] s@[j]),
        decreases s.len() - i,
    {
        let c = s[i];
        if !(char_is_alphanumeric(c) || c == '_' || c == '$') {
            return false;
        }
        i = i + 1;
    }
    true
}

/// A single unqualified identifier segment.
pub fn is_plain_identifier(s: &str) -> (r: bool)
    ensures
        r == plain_identifier(s@),
{
    let cs = str_chars(s);
    chars_are_plain_identifier(cs.as_slice())
}

fn chars_are_dotted_identifiers(s: &[char]) -> (r: bool)
    ensures
        r == dotted_identifiers(s@),
    decreases s.len(),
{
    proof {
        crate::text::lemma_char_index_from(s@, '.', 0);
    }
    match find_char(s, '.') {
        None => chars_are_plain_identifier(s),
        Some(i) => {
            let head = slice_subrange(s, 0, i);
            if !chars_are_plain_identifier(head) {
                return false;
            }
            let tail = slice_subrange(s, i + 1, s.len());
            proof {
                assert(head@ =~= s@.take(i as int));
                assert(tail@ =~= s@.skip(i + 1));
            }
            chars_are_dotted_identifiers(tail)
        },
    }
}

/// Kind is Function or Method, and the name is an identifier: its first
/// character alphabetic (Unicode), `_` or `$`, the rest alphanumeric, `_` or
/// `$`. Servers qualify method names in their own ways (gopls: `counter.bump`
/// from `workspace/symbol`, `(*counter).bump` from `documentSymbol`), so a
/// leading parenthesised receiver is stripped and every dot-separated
/// segment must be a plain identifier. tsserver's synthesized callback names
/// (`_def.checks.find() callback`) are dotted too, but their last segment
/// carries parentheses and a space, so they still fail.
pub fn is_named_callable(name: &str, kind: SymbolKind) -> (r: bool)
    ensures
        r == named_callable(name@, kind),
{
    if !(kind == SymbolKind::FUNCTION || kind == SymbolKind::METHOD) {
        return false;
    }
    let cs = str_chars(name);
    let all = cs.as_slice();
    let rest: &[char];
    if all.len() > 0 && all[0] == '(' {
        let after = slice_subrange(all, 1, all.len());
        proof {
            assert(after@ =~= name@.skip(1));
            crate::text::lemma_char_index_from(after@, ')', 0);
        }
        match find_char(after, ')') {
            None => {
                return false;
            },
            Some(close) => {
                let recv = slice_subrange(after, 0, close);
                let receiver = if recv.len() > 0 && recv[0] == '*' {
                    slice_subrange(recv, 1, recv.len())
                } else {
                    recv
                };
                proof {
                    assert(recv@ =~= after@.take(close as int));
                    if recv@.len() > 0 && recv@[0] == '*' {
                        assert(receiver@ =~= recv@.skip(1));
                    }
                }
                if !chars_are_plain_identifier(receiver) {
                    return false;
                }
                let tail = slice_subrange(after, close + 1, after.len());
                proof {
                    assert(tail@ =~= after@.skip(close + 1));
                }
                if tail.len() > 0 && tail[0] == '.' {
                    rest = slice_subrange(tail, 1, tail.len());
                    proof {
                        assert(rest@ =~= tail@.skip(1));
                    }
                } else {
                    rest = slice_subrange(tail, 0, 0);
                    proof {
                        assert(rest@ =~= Seq::<char>::empty());
                    }
                }
            },
        }
    } else {
        rest = all;
    }
    rest.len() > 0 && chars_are_dotted_identifiers(rest)
}

pub open spec fn callable_view() -> spec_fn(NamedCallable) -> CallableView {
    |c: NamedCallable| c@
}

pub open spec fn callables_view(v: Seq<NamedCallable>) -> Seq<CallableView> {
    v.map_values(callable_view())
}

/// The named callables of a list of symbols and of their descendants, each
/// symbol before its children, in document order.
pub open spec fn callables_in(syms: Seq<DocumentSymbol>, uri: Seq<char>) -> Seq<CallableView>
    decreases syms,
{
    if syms.len() == 0 {
        Seq::empty()
    } else {
        callables_in(syms.drop_last(), uri) + callables_of(syms.last(), uri)
    }
}

/// The named callables of one symbol and of its descendants.
pub open spec fn callables_of(s: DocumentSymbol, uri: Seq<char>) -> Seq<CallableView>
    decreases s,
{
    let own: Seq<CallableView> = if named_callable(s.name@, s.kind) {
        seq![(s.name@, uri, s.selection_start)]
    } else {
        Seq::empty()
    };
    match s.children {
        Some(c) => own + callables_in(c@, uri),
        None => own,
    }
}

/// Append the named callables among `symbols` and all their descendants.
pub fn collect_named_callables(symbols: &[DocumentSymbol], uri: &str, out: &mut Vec<NamedCallable>)
    ensures
        callables_view(final(out)@) == callables_view(old(out)@) + callables_in(symbols@, uri@),
    decreases symbols@,
{
    let mut i: usize = 0;
    while i < symbols.len()
        invariant
            i <= symbols@.len(),
            callables_view(out@) == callables_view(old(out)@) + callables_in(symbols@.take(i as int), uri@),
        decreases symbols.len() - i,
    {
        let s = &symbols[i];
        let ghost before = out@;
        proof {
            assert(symbols@.take(i + 1).drop_last() =~= symbols@.take(i as int));
            assert(symbols@.take(i + 1).last() == symbols@[i as int]);
        }
        if is_named_callable(s.name.as_str(), s.kind) {
            let c = NamedCallable { name: s.name.clone(), uri: string_from_chars(str_chars(uri).as_slice()), position: s.selection_start };
            out.push(c);
            proof {
                crate::graph::lemma_map_values_push(before, c, callable_view());
            }
        }
        let ghost mid = out@;
        match &s.children {
            Some(children) => {
                proof {
                    assert(decreases_to!(symbols@ => symbols@[i as int]));
                }
                collect_named_callables(children.as_slice(), uri, out);
            },
            None => {},
        }
        proof {
            let own: Seq<CallableView> = if named_callable(s.name@, s.kind) {
                seq![(s.name@, uri@, s.selection_start)]
            } else {
                Seq::empty()
            };
            assert(callables_view(mid) =~= callables_view(before) + own);
            assert(callables_in(symbols@.take(i + 1), uri@) == callables_in(symbols@.take(i as int), uri@)
                + callables_of(symbols@[i as int], uri@));
            let rest = match symbols@[i as int].children {
                Some(c) => callables_in(c@, uri@),
                None => Seq::empty(),
            };
            assert(callables_of(symbols@[i as int], uri@) =~= own + rest);
            assert(callables_view(out@) =~= callables_view(mid) + rest);
            assert(callables_view(out@) =~= callables_view(old(out)@) + callables_in(symbols@.take(i + 1), uri@));
        }
        i = i + 1;
    }
    proof {
        assert(symbols@.take(i as int) =~= symbols@);
    }
}

/// The `SymbolKind` treated as a plain function.
pub fn function_kind() -> (r: SymbolKind)
    ensures
        r == SymbolKind::FUNCTION,
{
    SymbolKind::FUNCTION
}

/// A symbol found by a repository-wide `workspace/symbol` search.
#[derive(Debug, Clone, PartialEq)]
pub struct SymbolMatch {
    pub name: String,
    /// The enclosing class/module the server reported, if any.
    pub container: Option<String>,
    pub uri: String,
    pub position: Position,
    pub kind: SymbolKind,
}

pub type MatchView = (Seq<char>, Option<Seq<char>>, Seq<char>, Position, SymbolKind);

impl View for SymbolMatch {
    type V = MatchView;

    open spec fn view(&self) -> MatchView {
        (self.name@, opt_view(self.container), self.uri@, self.position, self.kind)
    }
}

pub fn clone_match(m: &SymbolMatch) -> (r: SymbolMatch)
    ensures
        r@ == m@,
{
    SymbolMatch {
        name: m.name.clone(),
        container: crate::graph::clone_opt_string(&m.container),
        uri: m.uri.clone(),
        position: m.position,
        kind: m.kind,
    }
}

pub open spec fn matches_view(v: Seq<SymbolMatch>) -> Seq<MatchView> {
    v.map_values(match_view())
}

impl NamedCallable {
    /// The callable a search match names.
    pub fn from_match(m: &SymbolMatch) -> (r: NamedCallable)
        ensures
            r@ == (m.name@, m.uri@, m.position),
    {
        NamedCallable { name: m.name.clone(), uri: m.uri.clone(), position: m.position }
    }
}

/// `name` without a trailing `()`.
pub open spec fn undecorated(name: Seq<char>) -> Seq<char> {
    if name.len() >= 2 && name[name.len() - 2] == '(' && name[name.len() - 1] == ')' {
        name.take(name.len() - 2)
    } else {
        name
    }
}

/// Some servers decorate callable names in `workspace/symbol` results:
/// vtsls returns "middle()" where rust-analyzer returns "middle". Strip that
/// decoration so the stored name matches what call hierarchy reports.
///
/// Deliberately only a TRAILING "()": `documentSymbol`'s synthesized callback
/// names such as `expect() callback` do not end with it and must stay rejected.
pub fn undecorate(name: &str) -> (r: String)
    ensures
        r@ == undecorated(name@),
{
    let cs = str_chars(name);
    let n = cs.len();
    if n >= 2 && cs[n - 2] == '(' && cs[n - 1] == ')' {
        let s = slice_subrange(cs.as_slice(), 0, n - 2);
        proof {
            assert(s@ =~= name@.take(n - 2));
        }
        string_from_chars(s)
    } else {
        string_from_chars(cs.as_slice())
    }
}

/// The number in a field, or 0 where there is none.
pub open spec fn u64_or_zero(v: Option<JsonValue>) -> u64 {
    match u64_of(v) {
        Some(n) => n,
        None => 0,
    }
}

/// The search match a `workspace/symbol` entry describes, or `None` where it
/// is not a named function or method with a parsable uri.
pub open spec fn entry_match(e: JsonValue) -> Option<MatchView> {
    match str_of(field(e, "name"@)) {
        None => None,
        Some(raw) => {
            let name = undecorated(raw);
            match u64_of(field(e, "kind"@)) {
                None => None,
                Some(k) => if k != 6 && k != 12 {
                    None
                } else {
                    let kind = if k == 6 {
                        SymbolKind::METHOD
                    } else {
                        SymbolKind::FUNCTION
                    };
                    if !named_callable(name, kind) {
                        None
                    } else {
                        match field(e, "location"@) {
                            None => None,
                            Some(loc) => match str_of(field(loc, "uri"@)) {
                                None => None,
                                Some(u) => match url_parse(u) {
                                    None => None,
                                    Some(uri) => {
                                        let start = field_of(field(loc, "range"@), "start"@);
                                        let line = u64_or_zero(field_of(start, "line"@)) as u32;
                                        let character = u64_or_zero(field_of(start, "character"@)) as u32;
                                        let container = match str_of(field(e, "containerName"@)) {
                                            Some(c) => if c.len() > 0 {
                                                Some(c)
                                            } else {
                                                None
                                            },
                                            None => None,
                                        };
                                        Some((name, container, uri, Position { line, character }, kind))
                                    },
                                },
                            },
                        }
                    }
                },
            }
        },
    }
}

/// The matches of a list of entries, in order, skipping what is not one.
pub open spec fn matches_of(entries: Seq<JsonValue>) -> Seq<MatchView>
    decreases entries.len(),
{
    if entries.len() == 0 {
        Seq::empty()
    } else {
        matches_of(entries.drop_last()) + match entry_match(entries.last()) {
            Some(m) => seq![m],
            None => Seq::empty(),
        }
    }
}

/// Does entry `e` describe a match?
pub open spec fn is_match_entry() -> spec_fn(JsonValue) -> bool {
    |e: JsonValue| entry_match(e) is Some
}

/// The match entry `e` describes.
pub open spec fn match_of_entry() -> spec_fn(JsonValue) -> MatchView {
    |e: JsonValue| entry_match(e)->Some_0
}

/// Each entry is judged on its own: the matches are those of exactly the
/// entries that describe one, in order, and an entry that does not is
/// skipped, not the end of the list.
pub proof fn lemma_matches_are_every_matching_entry(entries: Seq<JsonValue>)
    ensures
        matches_of(entries) == entries.filter(is_match_entry()).map_values(match_of_entry()),
        matches_of(entries).len() == entries.filter(is_match_entry()).len(),
    decreases entries.len(),
{
    reveal(Seq::filter);
    if entries.len() > 0 {
        let init = entries.drop_last();
        let l = entries.last();
        lemma_matches_are_every_matching_entry(init);
        let f = init.filter(is_match_entry());
        if is_match_entry()(l) {
            assert(f.push(l).map_values(match_of_entry()) =~= f.map_values(match_of_entry()) + seq![
                entry_match(l)->Some_0,
            ]);
            assert(f + seq![l] =~= f.push(l));
        } else {
            assert(f + Seq::<JsonValue>::empty() =~= f);
            assert(matches_of(init) + Seq::<MatchView>::empty() =~= matches_of(init));
        }
    }
}

/// The matches of two runs of entries are the matches of each, one after
/// the other: an entry's match depends on that entry alone.
pub proof fn lemma_matches_concat(a: Seq<JsonValue>, b: Seq<JsonValue>)
    ensures
        matches_of(a + b) == matches_of(a) + matches_of(b),
    decreases b.len(),
{
    if b.len() == 0 {
        assert(a + b =~= a);
        assert(matches_of(a) + Seq::<MatchView>::empty() =~= matches_of(a));
    } else {
        lemma_matches_concat(a, b.drop_last());
        assert((a + b).drop_last() =~= a + b.drop_last());
        assert((a + b).last() == b.last());
    }
}

/// The matches of a `workspace/symbol` result: none unless it is an array.
pub open spec fn workspace_matches(v: JsonValue) -> Seq<MatchView> {
    match v {
        JsonValue::Array(a) => matches_of(a@),
        _ => Seq::empty(),
    }
}

pub open spec fn match_view() -> spec_fn(SymbolMatch) -> MatchView {
    |m: SymbolMatch| m@
}

fn u64_field_or_zero(v: Option<&JsonValue>, key: &str) -> (r: u64)
    ensures
        r == u64_or_zero(field_of(crate::json::deref_opt(v), key@)),
{
    match get_opt(v, key) {
        Some(x) => match x.as_u64() {
            Some(n) => n,
            None => 0,
        },
        None => 0,
    }
}

fn entry_symbol(e: &JsonValue) -> (r: Option<SymbolMatch>)
    ensures
        match r {
            Some(m) => entry_match(*e) == Some(m@),
            None => entry_match(*e) is None,
        },
{
    let raw = match e.get("name") {
        Some(x) => match x.as_str() {
            Some(s) => s,
            None => {
                return None;
            },
        },
        None => {
            return None;
        },
    };
    let name = undecorate(raw.as_str());
    let k = match e.get("kind") {
        Some(x) => match x.as_u64() {
            Some(n) => n,
            None => {
                return None;
            },
        },
        None => {
            return None;
        },
    };
    let kind = if k == 6 {
        SymbolKind::METHOD
    } else if k == 12 {
        SymbolKind::FUNCTION
    } else {
        return None;
    };
    if !is_named_callable(name.as_str(), kind) {
        return None;
    }
    let loc = match e.get("location") {
        Some(l) => l,
        None => {
            return None;
        },
    };
    let u = match loc.get("uri") {
        Some(x) => match x.as_str() {
            Some(s) => s,
            None => {
                return None;
            },
        },
        None => {
            return None;
        },
    };
    let uri = match parse_url(u.as_str()) {
        Some(p) => p,
        None => {
            return None;
        },
    };
    let range = loc.get("range");
    let start = get_opt(range, "start");
    let line = u64_field_or_zero(start, "line") as u32;
    let character = u64_field_or_zero(start, "character") as u32;
    let container = match e.get("containerName") {
        Some(x) => match x.as_str() {
            Some(c) => if !str_is_empty(c.as_str()) {
                Some(c.clone())
            } else {
                None
            },
            None => None,
        },
        None => None,
    };
    Some(SymbolMatch { name, container, uri, position: Position { line, character }, kind })
}

/// Parse a `workspace/symbol` result, keeping only named callables.
///
/// Servers return `SymbolInformation[]` (with `location.range`) or
/// `WorkspaceSymbol[]` (with `location` possibly being `{uri}` only). Both
/// carry `name`, `kind` and a uri, which is all that is needed; a missing
/// position reads as line 0, character 0.
pub fn parse_workspace_symbols(v: &JsonValue) -> (r: Vec<SymbolMatch>)
    ensures
        r@.map_values(match_view()) == workspace_matches(*v),
{
    let arr = match v.as_array() {
        Some(a) => a,
        None => {
            let out: Vec<SymbolMatch> = Vec::new();
            proof {
                assert(out@.map_values(match_view()) =~= Seq::<MatchView>::empty());
            }
            return out;
        },
    };
    let mut out: Vec<SymbolMatch> = Vec::new();
    let mut i: usize = 0;
    proof {
        assert(out@.map_values(match_view()) =~= matches_of(arr@.take(0)));
    }
    while i < arr.len()
        invariant
            i <= arr@.len(),
            out@.map_values(match_view()) == matches_of(arr@.take(i as int)),
        decreases arr.len() - i,
    {
        proof {
            assert(arr@.take(i + 1).drop_last() =~= arr@.take(i as int));
            assert(arr@.take(i + 1).last() == arr@[i as int]);
        }
        let ghost before = out@;
        match entry_symbol(&arr[i]) {
            Some(m) => {
                out.push(m);
                proof {
                    crate::graph::lemma_map_values_push(before, m, match_view());
                }
            },
            None => {},
        }
        i = i + 1;
    }
    proof {
        assert(arr@.take(i as int) =~= arr@);
    }
    out
}

} // verus!
