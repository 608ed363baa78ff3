//! What the documentation generator records of a project: crates, modules,
//! public items and build targets, and how a `pub` line of source becomes a
//! documented item.

use vstd::prelude::*;
use vstd::string::{StrSliceExecFns, StringExecFns};
use crate::text::{utf8, has_infix, str_contains};

verus! {

#[derive(Debug, Clone)]
pub struct CrateDoc {
    pub name: String,
    pub path: String,
    pub description: String,
    pub version: String,
    pub dependencies: Vec<String>,
    pub features: Vec<String>,
    pub public_items: Vec<PublicItem>,
}

#[derive(Debug, Clone)]
pub struct PublicItem {
    pub name: String,
    pub kind: ItemKind,
    pub signature: String,
    pub doc: String,
    pub module: String,
    pub safety_notes: Vec<String>,
}

#[derive(Debug, Clone, Copy, PartialEq, Eq, Structural)]
pub enum ItemKind {
    Struct,
    Enum,
    Function,
    Method,
    Const,
    Static,
    Trait,
    TypeAlias,
    Macro,
}

#[derive(Debug, Clone)]
pub struct ModuleDoc {
    pub path: String,
    pub name: String,
    pub doc: String,
    pub items: Vec<PublicItem>,
}

#[derive(Debug, Clone)]
pub struct BuildTarget {
    pub name: String,
    pub platform: String,
    pub arch: String,
    pub features: Vec<String>,
    pub dependencies: Vec<String>,
    pub build_steps: Vec<String>,
    pub artifacts: Vec<String>,
}

/// Unicode white space, as `char::is_whitespace` has it.
pub open spec fn is_ws(c: char) -> bool {
    let v = c as u32;
    ||| 0x9 <= v <= 0xd
    ||| v == 0x20
    ||| v == 0x85
    ||| v == 0xa0
    ||| v == 0x1680
    ||| 0x2000 <= v <= 0x200a
    ||| v == 0x2028
    ||| v == 0x2029
    ||| v == 0x202f
    ||| v == 0x205f
    ||| v == 0x3000
}

/// First position at or after `i` that holds no white space, or the length.
pub open spec fn skip_ws(s: Seq<char>, i: int) -> int
    decreases s.len() - i,
{
    if i < 0 || i >= s.len() {
        s.len() as int
    } else if !is_ws(s[i]) {
        i
    } else {
        skip_ws(s, i + 1)
    }
}

/// First position at or after `i` that holds white space, or the length.
pub open spec fn skip_word(s: Seq<char>, i: int) -> int
    decreases s.len() - i,
{
    if i < 0 || i >= s.len() {
        s.len() as int
    } else if is_ws(s[i]) {
        i
    } else {
        skip_word(s, i + 1)
    }
}

/// The second white-space separated word of `s`, if it has two.
pub open spec fn second_word(s: Seq<char>) -> Option<Seq<char>> {
    let a0 = skip_ws(s, 0);
    let a1 = skip_ws(s, skip_word(s, a0));
    if a0 >= s.len() || a1 >= s.len() {
        None
    } else {
        Some(s.subrange(a1, skip_word(s, a1)))
    }
}

/// Position of the first `c` in `w`, or its length.
pub open spec fn find_char(w: Seq<char>, c: char, i: int) -> int
    decreases w.len() - i,
{
    if i < 0 || i >= w.len() {
        w.len() as int
    } else if w[i] == c {
        i
    } else {
        find_char(w, c, i + 1)
    }
}

/// `w` up to its first `c`.
pub open spec fn before_char(w: Seq<char>, c: char) -> Seq<char> {
    w.subrange(0, find_char(w, c, 0))
}

/// `w` without its trailing colons.
pub open spec fn trim_colons(w: Seq<char>) -> Seq<char>
    decreases w.len(),
{
    if w.len() > 0 && w.last() == ':' {
        trim_colons(w.drop_last())
    } else {
        w
    }
}

/// The name an item signature declares: its second word, cut at `(` and at
/// `<`, without trailing colons; `unknown` when there is no second word.
pub open spec fn item_name(sig: Seq<char>) -> Seq<char> {
    match second_word(sig) {
        Some(w) => trim_colons(before_char(before_char(w, '('), '<')),
        None => "unknown"@,
    }
}

pub proof fn lemma_skip_ws(s: Seq<char>, i: int)
    requires
        0 <= i <= s.len(),
    ensures
        i <= skip_ws(s, i) <= s.len(),
    decreases s.len() - i,
{
    if i < s.len() && is_ws(s[i]) {
        lemma_skip_ws(s, i + 1);
    }
}

pub proof fn lemma_skip_word(s: Seq<char>, i: int)
    requires
        0 <= i <= s.len(),
    ensures
        i <= skip_word(s, i) <= s.len(),
    decreases s.len() - i,
{
    if i < s.len() && !is_ws(s[i]) {
        lemma_skip_word(s, i + 1);
    }
}

pub proof fn lemma_find_char(w: Seq<char>, c: char, i: int)
    requires
        0 <= i <= w.len(),
    ensures
        i <= find_char(w, c, i) <= w.len(),
    decreases w.len() - i,
{
    if i < w.len() && w[i] != c {
        lemma_find_char(w, c, i + 1);
    }
}

pub(crate) fn char_is_ws(c: char) -> (r: bool)
    ensures
        r == is_ws(c),
{
    let v = c as u32;
    (0x9 <= v && v <= 0xd) || v == 0x20 || v == 0x85 || v == 0xa0 || v == 0x1680 || (0x2000 <= v
        && v <= 0x200a) || v == 0x2028 || v == 0x2029 || v == 0x202f || v == 0x205f || v == 0x3000
}

pub(crate) fn skip_ws_from(s: &str, i: usize) -> (r: usize)
    requires
        i <= s@.len(),
    ensures
        r == skip_ws(s@, i as int),
{
    let n = s.unicode_len();
    let mut j = i;
    while j < n && char_is_ws(s.get_char(j))
        invariant
            n == s@.len(),
            i <= j <= n,
            skip_ws(s@, i as int) == skip_ws(s@, j as int),
        decreases n - j,
    {
        j = j + 1;
    }
    j
}

pub(crate) fn skip_word_from(s: &str, i: usize) -> (r: usize)
    requires
        i <= s@.len(),
    ensures
        r == skip_word(s@, i as int),
{
    let n = s.unicode_len();
    let mut j = i;
    while j < n && !char_is_ws(s.get_char(j))
        invariant
            n == s@.len(),
            i <= j <= n,
            skip_word(s@, i as int) == skip_word(s@, j as int),
        decreases n - j,
    {
        j = j + 1;
    }
    j
}

pub(crate) fn find_char_in(w: &str, c: char) -> (r: usize)
    ensures
        r == find_char(w@, c, 0),
{
    let n = w.unicode_len();
    let mut j: usize = 0;
    while j < n && w.get_char(j) != c
        invariant
            n == w@.len(),
            j <= n,
            find_char(w@, c, 0) == find_char(w@, c, j as int),
        decreases n - j,
    {
        j = j + 1;
    }
    j
}

/// The name an item signature declares (see [`item_name`]).
pub fn extract_name(signature: &str) -> (r: String)
    ensures
        r@ == item_name(signature@),
{
    let n = signature.unicode_len();
    let a0 = skip_ws_from(signature, 0);
    proof {
        lemma_skip_ws(signature@, 0);
    }
    if a0 >= n {
        return String::from_str("unknown");
    }
    let e0 = skip_word_from(signature, a0);
    proof {
        lemma_skip_word(signature@, a0 as int);
    }
    let a1 = skip_ws_from(signature, e0);
    proof {
        lemma_skip_ws(signature@, e0 as int);
    }
    if a1 >= n {
        return String::from_str("unknown");
    }
    let e1 = skip_word_from(signature, a1);
    proof {
        lemma_skip_word(signature@, a1 as int);
    }
    let w = signature.substring_char(a1, e1);
    let p = find_char_in(w, '(');
    proof {
        lemma_find_char(w@, '(', 0);
    }
    let w2 = w.substring_char(0, p);
    let q = find_char_in(w2, '<');
    proof {
        lemma_find_char(w2@, '<', 0);
    }
    let w3 = w2.substring_char(0, q);
    let mut end = w3.unicode_len();
    assert(w3@.subrange(0, end as int) =~= w3@);
    while end > 0 && w3.get_char(end - 1) == ':'
        invariant
            end <= w3@.len(),
            trim_colons(w3@) == trim_colons(w3@.subrange(0, end as int)),
        decreases end,
    {
        assert(w3@.subrange(0, end as int).drop_last() =~= w3@.subrange(0, end - 1));
        end = end - 1;
    }
    assert(end > 0 ==> w3@.subrange(0, end as int).last() == w3@[end - 1]);
    String::from_str(w3.substring_char(0, end))
}

/// `s` without its leading `pub ` prefixes.
pub open spec fn strip_pub(s: Seq<char>) -> Seq<char>
    decreases s.len(),
{
    if s.len() >= 4 && s.subrange(0, 4) == "pub "@ {
        strip_pub(s.subrange(4, s.len() as int))
    } else {
        s
    }
}

/// The kind of item a `pub` line declares, if it is one that is documented.
pub open spec fn line_kind(line: Seq<char>) -> Option<ItemKind> {
    let b = utf8(line);
    if has_infix(b, utf8("pub struct"@)) {
        Some(ItemKind::Struct)
    } else if has_infix(b, utf8("pub enum"@)) {
        Some(ItemKind::Enum)
    } else if has_infix(b, utf8("pub fn"@)) || has_infix(b, utf8("pub async fn"@)) {
        Some(ItemKind::Function)
    } else if has_infix(b, utf8("pub const"@)) {
        Some(ItemKind::Const)
    } else if has_infix(b, utf8("pub static"@)) {
        Some(ItemKind::Static)
    } else if has_infix(b, utf8("pub trait"@)) {
        Some(ItemKind::Trait)
    } else if has_infix(b, utf8("pub type"@)) {
        Some(ItemKind::TypeAlias)
    } else {
        None
    }
}

fn kind_of_line(line: &str) -> (r: Option<ItemKind>)
    ensures
        r == line_kind(line@),
{
    if str_contains(line, "pub struct") {
        Some(ItemKind::Struct)
    } else if str_contains(line, "pub enum") {
        Some(ItemKind::Enum)
    } else if str_contains(line, "pub fn") || str_contains(line, "pub async fn") {
        Some(ItemKind::Function)
    } else if str_contains(line, "pub const") {
        Some(ItemKind::Const)
    } else if str_contains(line, "pub static") {
        Some(ItemKind::Static)
    } else if str_contains(line, "pub trait") {
        Some(ItemKind::Trait)
    } else if str_contains(line, "pub type") {
        Some(ItemKind::TypeAlias)
    } else {
        None
    }
}

/// A doc comment that speaks of unsafe code.
pub open spec fn mentions_safety(doc: Seq<char>) -> bool {
    let b = utf8(doc);
    has_infix(b, utf8("unsafe"@)) || has_infix(b, utf8("Safety"@)) || has_infix(b, utf8("safety"@))
}

fn strip_pub_prefixes(line: &str) -> (r: String)
    ensures
        r@ == strip_pub(line@),
{
    let n = line.unicode_len();
    let mut i: usize = 0;
    assert(line@.subrange(0, n as int) =~= line@);
    while n - i >= 4 && line.get_char(i) == 'p' && line.get_char(i + 1) == 'u' && line.get_char(i + 2)
        == 'b' && line.get_char(i + 3) == ' '
        invariant
            n == line@.len(),
            i <= n,
            strip_pub(line@) == strip_pub(line@.subrange(i as int, n as int)),
        decreases n - i,
    {
        proof {
            reveal_strlit("pub ");
            let s = line@.subrange(i as int, n as int);
            assert(s.subrange(0, 4) =~= "pub "@);
            assert(s.subrange(4, s.len() as int) =~= line@.subrange(i + 4, n as int));
        }
        i = i + 4;
    }
    proof {
        reveal_strlit("pub ");
        let s = line@.subrange(i as int, n as int);
        if s.len() >= 4 && s.subrange(0, 4) == "pub "@ {
            assert(s.subrange(0, 4)[0] == 'p');
            assert(s.subrange(0, 4)[1] == 'u');
            assert(s.subrange(0, 4)[2] == 'b');
            assert(s.subrange(0, 4)[3] == ' ');
        }
    }
    String::from_str(line.substring_char(i, n))
}

/// `item` is the documented item that the `pub` line `line` of `module`
/// declares, with doc comment `doc`.
pub open spec fn item_from_line(line: Seq<char>, doc: Seq<char>, module: Seq<char>, item: PublicItem) -> bool {
    &&& Some(item.kind) == line_kind(line)
    &&& item.signature@ == strip_pub(line)
    &&& item.name@ == item_name(strip_pub(line))
    &&& item.doc@ == doc
    &&& item.module@ == module
    &&& item.safety_notes@.len() == (if mentions_safety(doc) {
        1int
    } else {
        0int
    })
    &&& mentions_safety(doc) ==> item.safety_notes@[0]@
        == "Contains unsafe code - review safety invariants"@
}

/// The documented item a `pub` line of `module` declares, with the doc
/// comment above it: nothing for module declarations and lines of other
/// kinds.
pub fn parse_public_item(line: &str, doc: &str, module: &str) -> (r: Option<PublicItem>)
    ensures
        line_kind(line@) is None <==> r is None,
        r matches Some(item) ==> item_from_line(line@, doc@, module@, item),
{
    let kind = match kind_of_line(line) {
        Some(k) => k,
        None => {
            return None;
        },
    };
    let signature = strip_pub_prefixes(line);
    let mut safety_notes: Vec<String> = Vec::new();
    if str_contains(doc, "unsafe") || str_contains(doc, "Safety") || str_contains(doc, "safety") {
        safety_notes.push(String::from_str("Contains unsafe code - review safety invariants"));
    }
    let name = extract_name(signature.as_str());
    Some(
        PublicItem {
            name,
            kind,
            signature,
            doc: String::from_str(doc),
            module: String::from_str(module),
            safety_notes,
        },
    )
}

/// What the documentation audit counts.
#[derive(Debug, Clone, Copy, PartialEq, Eq, Structural)]
pub struct AuditCounts {
    pub total_items: usize,
    /// Functions and methods whose doc comment is blank.
    pub missing_docs: usize,
    /// Safety notes found.
    pub unsafe_blocks: usize,
    /// Safety notes on items whose doc comment does not speak of safety.
    pub undocumented_unsafe: usize,
}

/// The item is a function or method without documentation.
pub open spec fn missing_doc(item: PublicItem) -> bool {
    (item.kind == ItemKind::Function || item.kind == ItemKind::Method)
        && crate::server::probe::trim(item.doc@).len() == 0
}

/// Counts of the first `n` items: items, missing docs, safety notes, and
/// safety notes left undocumented.
pub open spec fn audit_items(items: Seq<PublicItem>, n: nat) -> (nat, nat, nat, nat)
    decreases n,
{
    if n == 0 || n > items.len() {
        (0, 0, 0, 0)
    } else {
        let (t, m, u, d) = audit_items(items, (n - 1) as nat);
        let it = items[n - 1];
        let notes = it.safety_notes@.len();
        (
            t + 1,
            if missing_doc(it) {
                m + 1
            } else {
                m
            },
            u + notes,
            if mentions_safety(it.doc@) {
                d
            } else {
                d + notes
            },
        )
    }
}

/// Counts over the first `n` crates.
pub open spec fn audit_crates(crates: Seq<CrateDoc>, n: nat) -> (nat, nat, nat, nat)
    decreases n,
{
    if n == 0 || n > crates.len() {
        (0, 0, 0, 0)
    } else {
        let (t, m, u, d) = audit_crates(crates, (n - 1) as nat);
        let items = crates[n - 1].public_items@;
        let (t2, m2, u2, d2) = audit_items(items, items.len());
        (t + t2, m + m2, u + u2, d + d2)
    }
}

proof fn lemma_audit_items_bounds(items: Seq<PublicItem>, n: nat)
    requires
        n <= items.len(),
    ensures
        audit_items(items, n).0 == n,
        audit_items(items, n).1 <= audit_items(items, n).0,
        audit_items(items, n).3 <= audit_items(items, n).2,
    decreases n,
{
    if n > 0 {
        lemma_audit_items_bounds(items, (n - 1) as nat);
    }
}

proof fn lemma_audit_crates_mono(crates: Seq<CrateDoc>, i: nat, j: nat)
    requires
        i <= j <= crates.len(),
    ensures
        audit_crates(crates, i).0 <= audit_crates(crates, j).0,
        audit_crates(crates, i).2 <= audit_crates(crates, j).2,
        audit_crates(crates, j).1 <= audit_crates(crates, j).0,
        audit_crates(crates, j).3 <= audit_crates(crates, j).2,
    decreases j,
{
    if j > 0 {
        let items = crates[j - 1].public_items@;
        lemma_audit_items_bounds(items, items.len());
        if i < j {
            lemma_audit_crates_mono(crates, i, (j - 1) as nat);
        } else {
            lemma_audit_crates_mono(crates, (j - 1) as nat, (j - 1) as nat);
        }
    }
}

proof fn lemma_audit_items_mono(items: Seq<PublicItem>, i: nat, j: nat)
    requires
        i <= j <= items.len(),
    ensures
        audit_items(items, i).2 <= audit_items(items, j).2,
    decreases j,
{
    if i < j {
        lemma_audit_items_mono(items, i, (j - 1) as nat);
    }
}

/// The documentation audit of a project's crates: how many public items
/// there are, how many functions lack documentation, and how many safety
/// notes there are, in all and on items whose doc comment says nothing of
/// safety.
pub fn audit_counts(crates: &Vec<CrateDoc>) -> (r: AuditCounts)
    requires
        audit_crates(crates@, crates@.len()).0 <= usize::MAX,
        audit_crates(crates@, crates@.len()).2 <= usize::MAX,
    ensures
        r.total_items == audit_crates(crates@, crates@.len()).0,
        r.missing_docs == audit_crates(crates@, crates@.len()).1,
        r.unsafe_blocks == audit_crates(crates@, crates@.len()).2,
        r.undocumented_unsafe == audit_crates(crates@, crates@.len()).3,
{
    let mut r = AuditCounts { total_items: 0, missing_docs: 0, unsafe_blocks: 0, undocumented_unsafe: 0 };
    let mut c: usize = 0;
    while c < crates.len()
        invariant
            c <= crates@.len(),
            audit_crates(crates@, crates@.len()).0 <= usize::MAX,
            audit_crates(crates@, crates@.len()).2 <= usize::MAX,
            (r.total_items as nat, r.missing_docs as nat, r.unsafe_blocks as nat, r.undocumented_unsafe as nat)
                == audit_crates(crates@, c as nat),
        decreases crates@.len() - c,
    {
        let items = &crates[c].public_items;
        let ghost base = (r.total_items as nat, r.missing_docs as nat, r.unsafe_blocks as nat, r.undocumented_unsafe as nat);
        proof {
            lemma_audit_crates_mono(crates@, (c + 1) as nat, crates@.len());
            lemma_audit_crates_mono(crates@, c as nat, c as nat);
            lemma_audit_items_bounds(items@, items@.len());
        }
        let mut k: usize = 0;
        while k < items.len()
            invariant
                k <= items@.len(),
                items@ == crates@[c as int].public_items@,
                base == audit_crates(crates@, c as nat),
                base.0 + audit_items(items@, items@.len()).0 <= usize::MAX,
                base.2 + audit_items(items@, items@.len()).2 <= usize::MAX,
                audit_items(items@, items@.len()).1 <= audit_items(items@, items@.len()).0,
                r.total_items == base.0 + audit_items(items@, k as nat).0,
                r.missing_docs == base.1 + audit_items(items@, k as nat).1,
                r.unsafe_blocks == base.2 + audit_items(items@, k as nat).2,
                r.undocumented_unsafe == base.3 + audit_items(items@, k as nat).3,
                r.missing_docs <= r.total_items,
                r.undocumented_unsafe <= r.unsafe_blocks,
            decreases items@.len() - k,
        {
            let it = &items[k];
            proof {
                lemma_audit_items_bounds(items@, (k + 1) as nat);
                lemma_audit_items_mono(items@, (k + 1) as nat, items@.len());
                lemma_audit_items_bounds(items@, items@.len());
            }
            let notes = it.safety_notes.len();
            r.total_items = r.total_items + 1;
            if (it.kind == ItemKind::Function || it.kind == ItemKind::Method)
                && crate::server::probe::trim_str(it.doc.as_str()).as_str().unicode_len() == 0 {
                r.missing_docs = r.missing_docs + 1;
            }
            r.unsafe_blocks = r.unsafe_blocks + notes;
            let doc = it.doc.as_str();
            if !(str_contains(doc, "Safety") || str_contains(doc, "safety") || str_contains(doc, "unsafe")) {
                r.undocumented_unsafe = r.undocumented_unsafe + notes;
            }
            k = k + 1;
        }
        c = c + 1;
    }
    r
}

/// A doc comment line: it starts with `///` or `//!`.
pub open spec fn is_doc_line(t: Seq<char>) -> bool {
    t.len() >= 3 && t[0] == '/' && t[1] == '/' && (t[2] == '/' || t[2] == '!')
}

/// A line that starts with `pub `.
pub open spec fn is_pub_line(t: Seq<char>) -> bool {
    t.len() >= 4 && t[0] == 'p' && t[1] == 'u' && t[2] == 'b' && t[3] == ' '
}

/// A comment line: it starts with `//`.
pub open spec fn is_comment_line(t: Seq<char>) -> bool {
    t.len() >= 2 && t[0] == '/' && t[1] == '/'
}

/// The text of a doc comment line: after its three marker characters,
/// without leading white space.
pub open spec fn doc_text(t: Seq<char>) -> Seq<char> {
    let rest = t.subrange(3, t.len() as int);
    rest.subrange(skip_ws(rest, 0), rest.len() as int)
}

/// The doc comment collected after the first `n` lines: doc lines add
/// their text and a newline, and any other line that is neither blank nor
/// a comment starts it afresh.
pub open spec fn doc_after(lines: Seq<String>, n: nat) -> Seq<char>
    decreases n,
{
    if n == 0 || n > lines.len() {
        Seq::empty()
    } else {
        let d = doc_after(lines, (n - 1) as nat);
        let t = crate::server::probe::trim(lines[n - 1]@);
        if is_doc_line(t) {
            d + doc_text(t) + seq!['\n']
        } else if is_pub_line(t) {
            Seq::empty()
        } else if t.len() != 0 && !is_comment_line(t) {
            Seq::empty()
        } else {
            d
        }
    }
}

/// Positions, among the first `n` lines, of the lines that declare a
/// documented item.
pub open spec fn item_lines(lines: Seq<String>, n: nat) -> Seq<int>
    decreases n,
{
    if n == 0 || n > lines.len() {
        Seq::empty()
    } else {
        let t = crate::server::probe::trim(lines[n - 1]@);
        item_lines(lines, (n - 1) as nat) + if !is_doc_line(t) && is_pub_line(t) && line_kind(t) is Some {
            seq![n - 1]
        } else {
            Seq::empty()
        }
    }
}

fn char_at_is(s: &str, n: usize, i: usize, c: char) -> (r: bool)
    requires
        n == s@.len(),
    ensures
        r == (i < n && s@[i as int] == c),
{
    i < n && s.get_char(i) == c
}

/// The documented items of a source file of `module`, given as lines, and
/// the doc comment left over at its end.
pub fn parse_module_lines(lines: &Vec<String>, module: &str) -> (r: (Vec<PublicItem>, String))
    ensures
        r.0@.len() == item_lines(lines@, lines@.len()).len(),
        forall|k: int|
            0 <= k < r.0@.len() ==> {
                let i = item_lines(lines@, lines@.len())[k];
                item_from_line(
                    crate::server::probe::trim(lines@[i]@),
                    doc_after(lines@, i as nat),
                    module@,
                    #[trigger] r.0@[k],
                )
            },
        r.1@ == doc_after(lines@, lines@.len()),
{
    let mut items: Vec<PublicItem> = Vec::new();
    let mut doc = String::new();
    let mut i: usize = 0;
    while i < lines.len()
        invariant
            i <= lines@.len(),
            doc@ == doc_after(lines@, i as nat),
            items@.len() == item_lines(lines@, i as nat).len(),
            forall|k: int|
                0 <= k < items@.len() ==> {
                    let m = item_lines(lines@, i as nat)[k];
                    item_from_line(
                        crate::server::probe::trim(lines@[m]@),
                        doc_after(lines@, m as nat),
                        module@,
                        #[trigger] items@[k],
                    )
                },
        decreases lines@.len() - i,
    {
        let ghost before = item_lines(lines@, i as nat);
        let t = crate::server::probe::trim_str(lines[i].as_str());
        let ts = t.as_str();
        let n = ts.unicode_len();
        let doc_line = char_at_is(ts, n, 0, '/') && char_at_is(ts, n, 1, '/') && (char_at_is(ts, n, 2, '/')
            || char_at_is(ts, n, 2, '!'));
        let pub_line = char_at_is(ts, n, 0, 'p') && char_at_is(ts, n, 1, 'u') && char_at_is(ts, n, 2, 'b')
            && char_at_is(ts, n, 3, ' ');
        if doc_line {
            let rest = ts.substring_char(3, n);
            let a = skip_ws_from(rest, 0);
            proof {
                lemma_skip_ws(rest@, 0);
            }
            let text = rest.substring_char(a, rest.unicode_len());
            doc.append(text);
            doc.append("\n");
            proof {
                reveal_strlit("\n");
            }
            assert(item_lines(lines@, (i + 1) as nat) =~= before);
        } else if pub_line {
            let item = parse_public_item(ts, doc.as_str(), module);
            match item {
                Some(it) => {
                    items.push(it);
                    assert(item_lines(lines@, (i + 1) as nat) == before + seq![i as int]);
                    proof {
                        assert forall|k: int| 0 <= k < items@.len() implies {
                            let m = item_lines(lines@, (i + 1) as nat)[k];
                            item_from_line(
                                crate::server::probe::trim(lines@[m]@),
                                doc_after(lines@, m as nat),
                                module@,
                                #[trigger] items@[k],
                            )
                        } by {
                            if k < items@.len() - 1 {
                                assert(item_lines(lines@, (i + 1) as nat)[k] == before[k]);
                            }
                        }
                    }
                },
                None => {
                    assert(item_lines(lines@, (i + 1) as nat) =~= before);
                },
            }
            doc = String::new();
        } else {
            let comment = char_at_is(ts, n, 0, '/') && char_at_is(ts, n, 1, '/');
            if n != 0 && !comment {
                doc = String::new();
            }
            assert(item_lines(lines@, (i + 1) as nat) =~= before);
        }
        i = i + 1;
    }
    (items, doc)
}

/// The documentation of one source file: its path, its name, the items it
/// declares and the doc comment left at its end.
pub fn module_doc(path: String, name: String, lines: &Vec<String>) -> (r: ModuleDoc)
    ensures
        r.path@ == path@,
        r.name@ == name@,
        r.items@.len() == item_lines(lines@, lines@.len()).len(),
        forall|k: int|
            0 <= k < r.items@.len() ==> {
                let i = item_lines(lines@, lines@.len())[k];
                item_from_line(
                    crate::server::probe::trim(lines@[i]@),
                    doc_after(lines@, i as nat),
                    path@,
                    #[trigger] r.items@[k],
                )
            },
        r.doc@ == doc_after(lines@, lines@.len()),
{
    let (items, doc) = parse_module_lines(lines, path.as_str());
    ModuleDoc { path, name, doc, items }
}

} // verus!
