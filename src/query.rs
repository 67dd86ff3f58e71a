use vstd::prelude::*;
use vstd::string::*;

verus! {

/// Opens a query document.
pub const DOC_OPEN: &'static str = "query {";

/// Closes a query document.
pub const DOC_CLOSE: &'static str = "}";

/// The fields requested for every emote item.
pub const ITEM_FIELDS: &'static str = "\n            id\n            name\n            animated\n            host {\n                files {\n                    format\n                }\n            }";

/// Pieces of one category page sub-query, around the page number and category.
pub const PAGE_ALIAS: &'static str = "\n    page";

pub const PAGE_ARGS: &'static str = ": emotes(query: \"\", page: ";

pub const PAGE_FILTER: &'static str = ", limit: 300, filter: {category: ";

pub const PAGE_TAIL: &'static str = ", exact_match: false, case_sensitive: false, ignore_tags: false}) {\n        items {";

/// Closes a sub-query that returns a list of items.
pub const ITEMS_CLOSE: &'static str = "\n        }\n    }\n";

/// Pieces of one exact-name sub-query, around its position and the name.
pub const EMOTE_ALIAS: &'static str = "\n    emote_";

pub const NAME_ARGS: &'static str = ": emotes(query: \"";

pub const NAME_TAIL: &'static str = "\", page: 1, limit: 300, filter: {category: TOP, exact_match: true, case_sensitive: true, ignore_tags: false}) {\n        items {";

/// Pieces of one id sub-query, around its position and the id.
pub const ID_ARGS: &'static str = ": emote(id: \"";

pub const ID_TAIL: &'static str = "\") {";

pub const SINGLE_CLOSE: &'static str = "\n    }\n";

/// Pieces of one emote-set sub-query, around its position and the set id.
pub const CHANNEL_ALIAS: &'static str = "\n    channel_";

pub const CHANNEL_ARGS: &'static str = ": emoteSet(id: \"";

pub const CHANNEL_TAIL: &'static str = "\") {\n        emotes {\n            data {";

pub const SET_CLOSE: &'static str = "\n            }\n        }\n    }\n";

/// The most ids one id query may hold.
pub const MAX_IDS_PER_QUERY: usize = 10;

/// The decimal digit for `d < 10`.
pub open spec fn digit(d: nat) -> char {
    if d == 0 { '0' }
    else if d == 1 { '1' }
    else if d == 2 { '2' }
    else if d == 3 { '3' }
    else if d == 4 { '4' }
    else if d == 5 { '5' }
    else if d == 6 { '6' }
    else if d == 7 { '7' }
    else if d == 8 { '8' }
    else { '9' }
}

/// The decimal writing of `n`, without leading zeros.
pub open spec fn dec(n: nat) -> Seq<char>
    decreases n,
{
    if n < 10 {
        seq![digit(n)]
    } else {
        dec(n / 10) + seq![digit(n % 10)]
    }
}

/// How one character is written inside a quoted string of a query.
pub open spec fn escape_char(c: char) -> Seq<char> {
    if c == '"' {
        seq!['\\', '"']
    } else if c == '\\' {
        seq!['\\', '\\']
    } else if c == '\n' {
        seq!['\\', 'n']
    } else if c == '\r' {
        seq!['\\', 'r']
    } else if c == '\t' {
        seq!['\\', 't']
    } else {
        seq![c]
    }
}

/// A text written inside a quoted string of a query.
pub open spec fn escaped(s: Seq<char>) -> Seq<char>
    decreases s.len(),
{
    if s.len() == 0 {
        Seq::empty()
    } else {
        escaped(s.drop_last()) + escape_char(s.last())
    }
}

/// The sub-query for category page `p`.
pub open spec fn category_page(p: nat, category: Seq<char>) -> Seq<char> {
    PAGE_ALIAS@ + dec(p) + PAGE_ARGS@ + dec(p) + PAGE_FILTER@ + category + PAGE_TAIL@
        + ITEM_FIELDS@ + ITEMS_CLOSE@
}

/// The sub-queries for `count` consecutive pages starting at page `first`.
pub open spec fn category_pages(first: nat, count: nat, category: Seq<char>) -> Seq<char>
    decreases count,
{
    if count == 0 {
        Seq::empty()
    } else {
        category_pages(first, (count - 1) as nat, category) + category_page(
            (first + count - 1) as nat,
            category,
        )
    }
}

/// The document that asks for `pages` pages of a category, after the first `offset` pages.
pub open spec fn category_doc(pages: nat, category: Seq<char>, offset: nat) -> Seq<char> {
    DOC_OPEN@ + category_pages(offset + 1, pages, category) + DOC_CLOSE@
}

/// The sub-query that looks up the name at position `i`.
pub open spec fn name_part(i: nat, name: Seq<char>) -> Seq<char> {
    EMOTE_ALIAS@ + dec(i) + NAME_ARGS@ + escaped(name) + NAME_TAIL@ + ITEM_FIELDS@ + ITEMS_CLOSE@
}

/// The sub-query that looks up the id at position `i`.
pub open spec fn id_part(i: nat, id: Seq<char>) -> Seq<char> {
    EMOTE_ALIAS@ + dec(i) + ID_ARGS@ + escaped(id) + ID_TAIL@ + ITEM_FIELDS@ + SINGLE_CLOSE@
}

/// The sub-query that looks up the emote set at position `i`.
pub open spec fn channel_part(i: nat, id: Seq<char>) -> Seq<char> {
    CHANNEL_ALIAS@ + dec(i) + CHANNEL_ARGS@ + escaped(id) + CHANNEL_TAIL@ + ITEM_FIELDS@
        + SET_CLOSE@
}

/// The kinds of lookup a positional document can hold.
pub enum LookupKind {
    Name,
    Id,
    Channel,
}

/// The sub-query of the given kind for position `i`.
pub open spec fn part(kind: LookupKind, i: nat, key: Seq<char>) -> Seq<char> {
    match kind {
        LookupKind::Name => name_part(i, key),
        LookupKind::Id => id_part(i, key),
        LookupKind::Channel => channel_part(i, key),
    }
}

/// The sub-queries for the first `n` keys, each aliased by its position.
pub open spec fn parts(kind: LookupKind, keys: Seq<Seq<char>>, n: nat) -> Seq<char>
    decreases n,
{
    if n == 0 {
        Seq::empty()
    } else {
        parts(kind, keys, (n - 1) as nat) + part(kind, (n - 1) as nat, keys[n - 1])
    }
}

/// The document that looks up every key, each under a positional alias.
pub open spec fn keyed_doc(kind: LookupKind, keys: Seq<Seq<char>>) -> Seq<char> {
    DOC_OPEN@ + parts(kind, keys, keys.len()) + DOC_CLOSE@
}

/// The values of a sequence of strings.
pub open spec fn string_views(s: Seq<String>) -> Seq<Seq<char>> {
    s.map_values(|x: String| x@)
}

/// The alias of the page sub-query for page `p`.
pub open spec fn page_alias(p: nat) -> Seq<char> {
    seq!['p', 'a', 'g', 'e'] + dec(p)
}

/// The alias of the positional sub-query `i` of the given kind.
pub open spec fn keyed_alias(kind: LookupKind, i: nat) -> Seq<char> {
    match kind {
        LookupKind::Channel => seq!['c', 'h', 'a', 'n', 'n', 'e', 'l', '_'] + dec(i),
        _ => seq!['e', 'm', 'o', 't', 'e', '_'] + dec(i),
    }
}

fn digit_str(d: u64) -> (r: &'static str)
    requires
        d < 10,
    ensures
        r@ == seq![digit(d as nat)],
{
    if d == 0 {
        proof { reveal_strlit("0"); }
        "0"
    } else if d == 1 {
        proof { reveal_strlit("1"); }
        "1"
    } else if d == 2 {
        proof { reveal_strlit("2"); }
        "2"
    } else if d == 3 {
        proof { reveal_strlit("3"); }
        "3"
    } else if d == 4 {
        proof { reveal_strlit("4"); }
        "4"
    } else if d == 5 {
        proof { reveal_strlit("5"); }
        "5"
    } else if d == 6 {
        proof { reveal_strlit("6"); }
        "6"
    } else if d == 7 {
        proof { reveal_strlit("7"); }
        "7"
    } else if d == 8 {
        proof { reveal_strlit("8"); }
        "8"
    } else {
        proof { reveal_strlit("9"); }
        "9"
    }
}

/// Appends the decimal writing of `n`.
pub fn push_decimal(out: &mut String, n: u64)
    ensures
        final(out)@ == old(out)@ + dec(n as nat),
    decreases n,
{
    if n < 10 {
        out.append(digit_str(n));
    } else {
        push_decimal(out, n / 10);
        out.append(digit_str(n % 10));
        assert(final(out)@ =~= old(out)@ + dec(n as nat));
    }
}

/// Appends `s` as it is written inside a quoted string.
pub fn push_escaped(out: &mut String, s: &str)
    ensures
        final(out)@ == old(out)@ + escaped(s@),
{
    let n = s.unicode_len();
    let ghost start = out@;
    let mut i: usize = 0;
    while i < n
        invariant
            n == s@.len(),
            i <= n,
            out@ == start + escaped(s@.subrange(0, i as int)),
        decreases n - i,
    {
        let c = s.get_char(i);
        proof {
            assert(s@.subrange(0, i + 1).drop_last() =~= s@.subrange(0, i as int));
        }
        if c == '"' {
            proof { reveal_strlit("\\\""); }
            out.append("\\\"");
        } else if c == '\\' {
            proof { reveal_strlit("\\\\"); }
            out.append("\\\\");
        } else if c == '\n' {
            proof { reveal_strlit("\\n"); }
            out.append("\\n");
        } else if c == '\r' {
            proof { reveal_strlit("\\r"); }
            out.append("\\r");
        } else if c == '\t' {
            proof { reveal_strlit("\\t"); }
            out.append("\\t");
        } else {
            let one = s.substring_char(i, i + 1);
            assert(one@ =~= seq![c]);
            out.append(one);
        }
        assert(out@ =~= start + escaped(s@.subrange(0, i + 1)));
        i = i + 1;
    }
    assert(s@.subrange(0, n as int) =~= s@);
}

fn push_category_page(out: &mut String, p: u64, category: &str)
    ensures
        final(out)@ == old(out)@ + category_page(p as nat, category@),
{
    out.append(PAGE_ALIAS);
    push_decimal(out, p);
    out.append(PAGE_ARGS);
    push_decimal(out, p);
    out.append(PAGE_FILTER);
    out.append(category);
    out.append(PAGE_TAIL);
    out.append(ITEM_FIELDS);
    out.append(ITEMS_CLOSE);
    assert(final(out)@ =~= old(out)@ + category_page(p as nat, category@));
}

/// Builds the document that asks for `pages` consecutive pages of `category`,
/// starting at page `page_offset + 1`, each sub-query aliased `page<number>`.
pub fn create_category_query(pages: u32, category: &str, page_offset: u32) -> (r: String)
    ensures
        r@ == category_doc(pages as nat, category@, page_offset as nat),
{
    let mut query = String::new();
    query.append(DOC_OPEN);
    let first: u64 = page_offset as u64 + 1;
    let mut j: u32 = 0;
    while j < pages
        invariant
            j <= pages,
            first == page_offset + 1,
            query@ == DOC_OPEN@ + category_pages(first as nat, j as nat, category@),
        decreases pages - j,
    {
        push_category_page(&mut query, first + j as u64, category);
        assert(query@ =~= DOC_OPEN@ + category_pages(first as nat, (j + 1) as nat, category@));
        j = j + 1;
    }
    query.append(DOC_CLOSE);
    query
}

fn push_part(out: &mut String, kind: &LookupKind, i: usize, key: &str)
    ensures
        final(out)@ == old(out)@ + part(*kind, i as nat, key@),
{
    match kind {
        LookupKind::Name => {
            out.append(EMOTE_ALIAS);
            push_decimal(out, i as u64);
            out.append(NAME_ARGS);
            push_escaped(out, key);
            out.append(NAME_TAIL);
            out.append(ITEM_FIELDS);
            out.append(ITEMS_CLOSE);
        },
        LookupKind::Id => {
            out.append(EMOTE_ALIAS);
            push_decimal(out, i as u64);
            out.append(ID_ARGS);
            push_escaped(out, key);
            out.append(ID_TAIL);
            out.append(ITEM_FIELDS);
            out.append(SINGLE_CLOSE);
        },
        LookupKind::Channel => {
            out.append(CHANNEL_ALIAS);
            push_decimal(out, i as u64);
            out.append(CHANNEL_ARGS);
            push_escaped(out, key);
            out.append(CHANNEL_TAIL);
            out.append(ITEM_FIELDS);
            out.append(SET_CLOSE);
        },
    }
    assert(final(out)@ =~= old(out)@ + part(*kind, i as nat, key@));
}

fn create_keyed_query(kind: LookupKind, keys: &Vec<String>) -> (r: String)
    ensures
        r@ == keyed_doc(kind, string_views(keys@)),
{
    let ghost ks = string_views(keys@);
    let mut query = String::new();
    query.append(DOC_OPEN);
    let mut i: usize = 0;
    while i < keys.len()
        invariant
            i <= keys.len(),
            ks == string_views(keys@),
            query@ == DOC_OPEN@ + parts(kind, ks, i as nat),
        decreases keys.len() - i,
    {
        push_part(&mut query, &kind, i, keys[i].as_str());
        assert(query@ =~= DOC_OPEN@ + parts(kind, ks, (i + 1) as nat));
        i = i + 1;
    }
    query.append(DOC_CLOSE);
    query
}

/// Builds the document that looks up each name exactly (case-sensitive),
/// the sub-query for `names[i]` aliased `emote_<i>`.
pub fn create_name_query(names: &Vec<String>) -> (r: String)
    ensures
        r@ == keyed_doc(LookupKind::Name, string_views(names@)),
{
    create_keyed_query(LookupKind::Name, names)
}

/// Builds the document that looks up each id, the sub-query for `ids[i]`
/// aliased `emote_<i>`. One document holds at most ten ids.
pub fn create_id_query(ids: &Vec<String>) -> (r: String)
    requires
        ids@.len() <= MAX_IDS_PER_QUERY,
    ensures
        r@ == keyed_doc(LookupKind::Id, string_views(ids@)),
{
    create_keyed_query(LookupKind::Id, ids)
}

/// Builds the document that looks up each emote set, the sub-query for
/// `channels[i]` aliased `channel_<i>`.
pub fn create_channel_query(channels: &Vec<String>) -> (r: String)
    ensures
        r@ == keyed_doc(LookupKind::Channel, string_views(channels@)),
{
    create_keyed_query(LookupKind::Channel, channels)
}

/// The alias under which the category document holds page `p`.
pub fn create_page_alias(p: u64) -> (r: String)
    ensures
        r@ == page_alias(p as nat),
{
    let mut s = String::new();
    proof { reveal_strlit("page"); }
    s.append("page");
    push_decimal(&mut s, p);
    s
}

/// The aliases of the pages a category document asks for, in page order.
pub fn category_page_aliases(pages: u32, page_offset: u32) -> (r: Vec<String>)
    ensures
        r@.len() == pages,
        forall|i: int| 0 <= i < pages ==> #[trigger] r@[i]@ == page_alias((page_offset + 1 + i) as nat),
{
    let mut r: Vec<String> = Vec::new();
    let mut j: u32 = 0;
    while j < pages
        invariant
            j <= pages,
            r@.len() == j,
            forall|i: int| 0 <= i < j ==> #[trigger] r@[i]@ == page_alias((page_offset + 1 + i) as nat),
        decreases pages - j,
    {
        r.push(create_page_alias(page_offset as u64 + 1 + j as u64));
        j = j + 1;
    }
    r
}

/// The alias under which a positional document holds the sub-query for position `i`.
pub fn create_keyed_alias(kind: LookupKind, i: usize) -> (r: String)
    ensures
        r@ == keyed_alias(kind, i as nat),
{
    let mut s = String::new();
    match kind {
        LookupKind::Channel => {
            proof { reveal_strlit("channel_"); }
            s.append("channel_");
        },
        _ => {
            proof { reveal_strlit("emote_"); }
            s.append("emote_");
        },
    }
    push_decimal(&mut s, i as u64);
    s
}

/// Documents are a function of their inputs: the same pages, category and
/// offset give the same document, character for character.
pub proof fn lemma_category_query_deterministic(
    pages1: u32,
    category1: Seq<char>,
    offset1: u32,
    pages2: u32,
    category2: Seq<char>,
    offset2: u32,
)
    requires
        pages1 == pages2,
        category1 == category2,
        offset1 == offset2,
    ensures
        category_doc(pages1 as nat, category1, offset1 as nat) == category_doc(
            pages2 as nat,
            category2,
            offset2 as nat,
        ),
{
}

} // verus!
