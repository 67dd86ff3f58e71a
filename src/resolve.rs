use vstd::prelude::*;
use crate::emote::{views, Emote, EmoteSetEmote, EmoteView};
use crate::query::{
    category_doc, create_category_query, create_channel_query, create_id_query, create_name_query, keyed_doc, string_views, LookupKind,
    MAX_IDS_PER_QUERY,
};
use crate::table::{key_of, keep_first, lemma_overwrite_concat, overwrite, EmoteMap, KeyField};

verus! {

/// Why a lookup against the provider failed.
#[derive(Debug)]
pub enum ProviderError {
    /// The request did not reach the provider or no reply came back.
    Transport(String),
    /// The provider answered with a client or server error status, and this body.
    Http(u16, String),
    /// The reply carried a non-empty `errors` list.
    Graph(String),
    /// The reply could not be read as the expected records.
    Decode(String),
    /// A requested name or id is absent from the reply.
    NotFound(String),
}

/// Whether an HTTP status is a client or server error.
pub open spec fn is_error_status(status: u16) -> bool {
    400 <= status <= 599
}

/// Classifies a reply by its HTTP status: an error status fails the lookup
/// with the status and body, any other hands the body on.
pub fn check_status(status: u16, body: String) -> (r: Result<String, ProviderError>)
    ensures
        is_error_status(status) ==> (r matches Err(ProviderError::Http(s, b)) && s == status && b@
            == body@),
        !is_error_status(status) ==> (r matches Ok(b) && b@ == body@),
{
    if 400 <= status && status <= 599 {
        Err(ProviderError::Http(status, body))
    } else {
        Ok(body)
    }
}

/// Classifies a reply by its `errors` list, given as its text when present
/// and non-empty: any such list fails the lookup.
pub fn check_graph_errors(errors: Option<String>) -> (r: Result<(), ProviderError>)
    ensures
        errors is None <==> r is Ok,
        errors matches Some(e) ==> (r matches Err(ProviderError::Graph(d)) && d@ == e@),
{
    match errors {
        None => Ok(()),
        Some(e) => Err(ProviderError::Graph(e)),
    }
}

/// The number of id queries needed for `n` ids: the ceiling of `n / 10`.
pub open spec fn id_batch_count(n: nat) -> nat {
    ((n + MAX_IDS_PER_QUERY - 1) / (MAX_IDS_PER_QUERY as int)) as nat
}

/// The number of ids in batch `i` when `n` ids are split.
pub open spec fn id_batch_len(n: nat, i: int) -> int {
    if n - MAX_IDS_PER_QUERY * i >= MAX_IDS_PER_QUERY {
        MAX_IDS_PER_QUERY as int
    } else {
        n - MAX_IDS_PER_QUERY * i
    }
}

/// Splits ids into consecutive batches of ten, the last one holding the rest.
/// No ids give no batch.
pub fn chunk_ids(ids: &Vec<String>) -> (r: Vec<Vec<String>>)
    ensures
        r@.len() == id_batch_count(ids@.len()),
        forall|i: int| 0 <= i < r@.len() ==> #[trigger] r@[i]@.len() == id_batch_len(ids@.len(), i),
        forall|i: int, j: int|
            0 <= i < r@.len() && 0 <= j < r@[i]@.len() ==> #[trigger] r@[i]@[j]@ == ids@[MAX_IDS_PER_QUERY * i + j]@,
{
    let n = ids.len();
    let mut r: Vec<Vec<String>> = Vec::new();
    let mut start: usize = 0;
    while start < n
        invariant
            n == ids@.len(),
            start <= n,
            start == n || start == MAX_IDS_PER_QUERY * r@.len(),
            start == n ==> r@.len() == id_batch_count(n as nat),
            start < n ==> r@.len() < id_batch_count(n as nat),
            forall|i: int| 0 <= i < r@.len() ==> #[trigger] r@[i]@.len() == id_batch_len(n as nat, i),
            forall|i: int, j: int|
                0 <= i < r@.len() && 0 <= j < r@[i]@.len() ==> #[trigger] r@[i]@[j]@ == ids@[MAX_IDS_PER_QUERY * i + j]@,
        decreases n - start,
    {
        let end = if n - start >= MAX_IDS_PER_QUERY { start + MAX_IDS_PER_QUERY } else { n };
        let mut chunk: Vec<String> = Vec::new();
        let mut k: usize = start;
        while k < end
            invariant
                start <= k <= end <= n,
                n == ids@.len(),
                chunk@.len() == k - start,
                forall|j: int| 0 <= j < chunk@.len() ==> #[trigger] chunk@[j]@ == ids@[start + j]@,
            decreases end - k,
        {
            chunk.push(ids[k].clone());
            k = k + 1;
        }
        let ghost c = r@.len();
        r.push(chunk);
        proof {
            assert(r@[c as int]@ == chunk@);
        }
        start = end;
    }
    if n == 0 {
        assert(id_batch_count(0) == 0);
    }
    r
}

/// The category of the top-ranked listing.
pub const TOP_CATEGORY: &'static str = "TOP";

/// The category of the trending listing.
pub const TRENDING_CATEGORY: &'static str = "TRENDING_DAY";

/// How many top-ranked requests the startup listing makes, one page offset each.
pub const TOP_REQUESTS: u32 = 5;

/// How many pages each listing request asks for.
pub const PAGES_PER_REQUEST: u32 = 1;

/// The documents of the startup listing, all sent together: first the
/// trending page, then one top-ranked request for each page offset in order.
pub fn plan_top() -> (r: Vec<String>)
    ensures
        r@.len() == TOP_REQUESTS + 1,
        r@[0]@ == category_doc(PAGES_PER_REQUEST as nat, TRENDING_CATEGORY@, 0),
        forall|i: int|
            1 <= i <= TOP_REQUESTS ==> #[trigger] r@[i]@ == category_doc(
                PAGES_PER_REQUEST as nat,
                TOP_CATEGORY@,
                ((i - 1) * PAGES_PER_REQUEST) as nat,
            ),
{
    let mut r: Vec<String> = Vec::new();
    r.push(create_category_query(PAGES_PER_REQUEST, TRENDING_CATEGORY, 0));
    let mut k: u32 = 0;
    while k < TOP_REQUESTS
        invariant
            k <= TOP_REQUESTS,
            r@.len() == k + 1,
            r@[0]@ == category_doc(PAGES_PER_REQUEST as nat, TRENDING_CATEGORY@, 0),
            forall|i: int|
                1 <= i <= k ==> #[trigger] r@[i]@ == category_doc(
                    PAGES_PER_REQUEST as nat,
                    TOP_CATEGORY@,
                    ((i - 1) * PAGES_PER_REQUEST) as nat,
                ),
        decreases TOP_REQUESTS - k,
    {
        r.push(create_category_query(PAGES_PER_REQUEST, TOP_CATEGORY, k * PAGES_PER_REQUEST));
        k = k + 1;
    }
    r
}

/// A lookup requested by the administrative command.
#[derive(Debug)]
pub enum Lookup {
    ById(Vec<String>),
    ByName(Vec<String>),
    ByChannel(Vec<String>),
}

/// The documents to send for a lookup, one request each, all sent together.
/// Ids go ten to a document; names go in one document; emote sets go in one
/// document, and no emote set or no id means no request at all.
pub fn plan_queries(req: &Lookup) -> (r: Vec<String>)
    ensures
        req matches Lookup::ById(ids) ==> (r@.len() == id_batch_count(ids@.len()) && forall|i: int|
            0 <= i < r@.len() ==> #[trigger] r@[i]@ == keyed_doc(
                LookupKind::Id,
                ids@.subrange(MAX_IDS_PER_QUERY * i, MAX_IDS_PER_QUERY * i + id_batch_len(ids@.len(), i)).map_values(|x: String| x@),
            )),
        req matches Lookup::ByName(names) ==> (r@.len() == 1 && r@[0]@ == keyed_doc(
            LookupKind::Name,
            string_views(names@),
        )),
        req matches Lookup::ByChannel(chs) ==> (r@.len() == (if chs@.len() == 0 { 0int } else { 1int })
            && (chs@.len() > 0 ==> r@[0]@ == keyed_doc(LookupKind::Channel, string_views(chs@)))),
        (req matches Lookup::ById(ids) && ids@.len() == 0) ==> r@.len() == 0,
        (req matches Lookup::ByChannel(chs) && chs@.len() == 0) ==> r@.len() == 0,
{
    let mut r: Vec<String> = Vec::new();
    match req {
        Lookup::ById(ids) => {
            let batches = chunk_ids(ids);
            let mut i: usize = 0;
            while i < batches.len()
                invariant
                    batches@.len() == id_batch_count(ids@.len()),
                    forall|b: int| 0 <= b < batches@.len() ==> #[trigger] batches@[b]@.len() == id_batch_len(ids@.len(), b),
                    forall|b: int, j: int|
                        0 <= b < batches@.len() && 0 <= j < batches@[b]@.len() ==> #[trigger] batches@[b]@[j]@ == ids@[MAX_IDS_PER_QUERY * b + j]@,
                    i <= batches@.len(),
                    r@.len() == i,
                    forall|b: int| 0 <= b < i ==> #[trigger] r@[b]@ == keyed_doc(
                        LookupKind::Id,
                        ids@.subrange(MAX_IDS_PER_QUERY * b, MAX_IDS_PER_QUERY * b + id_batch_len(ids@.len(), b)).map_values(|x: String| x@),
                    ),
                decreases batches.len() - i,
            {
                let doc = create_id_query(&batches[i]);
                proof {
                    let b = i as int;
                    assert(string_views(batches@[b]@) =~= ids@.subrange(MAX_IDS_PER_QUERY * b, MAX_IDS_PER_QUERY * b + id_batch_len(ids@.len(), b)).map_values(|x: String| x@));
                }
                r.push(doc);
                i = i + 1;
            }
        },
        Lookup::ByName(names) => {
            r.push(create_name_query(names));
        },
        Lookup::ByChannel(chs) => {
            if chs.len() > 0 {
                r.push(create_channel_query(chs));
            }
        },
    }
    r
}

/// Whether every requested id has a record: the first missing one, if any.
pub open spec fn all_found(found: Seq<Option<Emote>>) -> bool {
    forall|i: int| 0 <= i < found.len() ==> #[trigger] found[i] is Some
}

/// `j` is the first position without a record.
pub open spec fn first_missing(found: Seq<Option<Emote>>, j: int) -> bool {
    &&& 0 <= j < found.len()
    &&& found[j] is None
    &&& forall|k: int| 0 <= k < j ==> #[trigger] found[k] is Some
}

/// Gathers the records found for one batch of ids, `found[i]` standing for
/// `ids[i]`. A missing record fails the batch with the first missing id.
pub fn collect_by_id(ids: &Vec<String>, found: Vec<Option<Emote>>) -> (r: Result<Vec<Emote>, ProviderError>)
    requires
        found@.len() == ids@.len(),
    ensures
        r is Ok <==> all_found(found@),
        r matches Ok(v) ==> (v@.len() == found@.len() && forall|i: int|
            0 <= i < v@.len() ==> #[trigger] v@[i]@ == found@[i]->0@),
        r matches Err(e) ==> exists|j: int|
            first_missing(found@, j) && (e matches ProviderError::NotFound(x) && x@ == ids@[j]@),
{
    let ghost all = found@;
    let mut rest = found;
    let total = rest.len();
    let mut out: Vec<Emote> = Vec::new();
    let mut n: usize = 0;
    while rest.len() > 0
        invariant
            all == found@,
            total == all.len(),
            n + rest@.len() == total,
            all.len() == ids@.len(),
            forall|j: int| 0 <= j < rest@.len() ==> #[trigger] rest@[j] == all[n + j],
            out@.len() == n,
            forall|k: int| 0 <= k < n ==> #[trigger] all[k] is Some,
            forall|i: int| 0 <= i < n ==> #[trigger] out@[i]@ == all[i]->0@,
        decreases rest@.len(),
    {
        let ghost before = rest@;
        let item = rest.remove(0);
        proof {
            assert(item == all[n as int]);
            assert forall|j: int| 0 <= j < rest@.len() implies #[trigger] rest@[j] == all[n + 1 + j] by {
                assert(rest@[j] == before[j + 1]);
            }
        }
        match item {
            Some(e) => {
                out.push(e);
            },
            None => {
                proof {
                    assert(all[n as int] is None);
                    assert(first_missing(all, n as int));
                }
                return Err(ProviderError::NotFound(ids[n].clone()));
            },
        }
        n = n + 1;
    }
    Ok(out)
}

/// The records of a sequence of batches, one after the other.
pub open spec fn concat_all(s: Seq<Seq<EmoteView>>) -> Seq<EmoteView>
    decreases s.len(),
{
    if s.len() == 0 {
        Seq::empty()
    } else {
        concat_all(s.drop_last()) + s.last()
    }
}

/// The values of a sequence of record batches.
pub open spec fn batch_views(s: Seq<Vec<Emote>>) -> Seq<Seq<EmoteView>> {
    s.map_values(|c: Vec<Emote>| views(c@))
}

/// The records of a sequence of emote-set members.
pub open spec fn member_views(s: Seq<EmoteSetEmote>) -> Seq<EmoteView> {
    s.map_values(|m: EmoteSetEmote| m.data@)
}

/// The values of a sequence of emote sets.
pub open spec fn set_views(s: Seq<Vec<EmoteSetEmote>>) -> Seq<Seq<EmoteView>> {
    s.map_values(|c: Vec<EmoteSetEmote>| member_views(c@))
}

/// Merges batches of records into one table keyed by id; a later record
/// replaces an earlier one with the same id.
pub fn merge_by_id(batches: Vec<Vec<Emote>>) -> (r: EmoteMap)
    ensures
        r.wf(),
        r.key_field() == KeyField::Id,
        r.view() == overwrite(Map::empty(), concat_all(batch_views(batches@)), KeyField::Id),
        batches@.len() == 0 ==> r.view() == Map::<Seq<char>, EmoteView>::empty(),
{
    let ghost all = batch_views(batches@);
    let mut m = EmoteMap::new(KeyField::Id);
    let mut rest = batches;
    let total = rest.len();
    let mut n: usize = 0;
    while rest.len() > 0
        invariant
            m.wf(),
            m.key_field() == KeyField::Id,
            total == all.len(),
            n + rest@.len() == total,
            forall|j: int| 0 <= j < rest@.len() ==> #[trigger] views(rest@[j]@) == all[n + j],
            m.view() == overwrite(Map::empty(), concat_all(all.subrange(0, n as int)), KeyField::Id),
        decreases rest@.len(),
    {
        let ghost before = rest@;
        let c = rest.remove(0);
        proof {
            assert(views(c@) == all[n as int]);
            assert(all.subrange(0, n + 1).drop_last() =~= all.subrange(0, n as int));
            assert forall|j: int| 0 <= j < rest@.len() implies #[trigger] views(rest@[j]@) == all[n + 1 + j] by {
                assert(rest@[j] == before[j + 1]);
            }
            lemma_overwrite_concat(
                Map::empty(),
                concat_all(all.subrange(0, n as int)),
                views(c@),
                KeyField::Id,
            );
        }
        m.insert_all(c);
        n = n + 1;
    }
    assert(all.subrange(0, n as int) =~= all);
    m
}

fn unwrap_members(members: Vec<EmoteSetEmote>) -> (r: Vec<Emote>)
    ensures
        views(r@) == member_views(members@),
{
    let ghost all = members@;
    let mut rest = members;
    let total = rest.len();
    let mut out: Vec<Emote> = Vec::new();
    let mut n: usize = 0;
    while rest.len() > 0
        invariant
            total == all.len(),
            n + rest@.len() == total,
            forall|j: int| 0 <= j < rest@.len() ==> #[trigger] rest@[j] == all[n + j],
            out@.len() == n,
            forall|i: int| 0 <= i < n ==> #[trigger] out@[i]@ == all[i].data@,
        decreases rest@.len(),
    {
        let ghost before = rest@;
        let m = rest.remove(0);
        proof {
            assert forall|j: int| 0 <= j < rest@.len() implies #[trigger] rest@[j] == all[n + 1 + j] by {
                assert(rest@[j] == before[j + 1]);
            }
        }
        out.push(m.data);
        n = n + 1;
    }
    assert(views(out@) =~= member_views(all));
    out
}

/// Merges the members of the requested emote sets into one table keyed by
/// id, whatever set each came from; a later record replaces an earlier one
/// with the same id.
pub fn merge_channels(sets: Vec<Vec<EmoteSetEmote>>) -> (r: EmoteMap)
    ensures
        r.wf(),
        r.key_field() == KeyField::Id,
        r.view() == overwrite(Map::empty(), concat_all(set_views(sets@)), KeyField::Id),
        sets@.len() == 0 ==> r.view() == Map::<Seq<char>, EmoteView>::empty(),
{
    let ghost all = sets@;
    let mut rest = sets;
    let total = rest.len();
    let mut batches: Vec<Vec<Emote>> = Vec::new();
    let mut n: usize = 0;
    while rest.len() > 0
        invariant
            total == all.len(),
            n + rest@.len() == total,
            forall|j: int| 0 <= j < rest@.len() ==> #[trigger] rest@[j] == all[n + j],
            batches@.len() == n,
            forall|i: int| 0 <= i < n ==> #[trigger] views(batches@[i]@) == member_views(all[i]@),
        decreases rest@.len(),
    {
        let ghost before = rest@;
        let s = rest.remove(0);
        proof {
            assert forall|j: int| 0 <= j < rest@.len() implies #[trigger] rest@[j] == all[n + 1 + j] by {
                assert(rest@[j] == before[j + 1]);
            }
        }
        batches.push(unwrap_members(s));
        n = n + 1;
    }
    assert(batch_views(batches@) =~= set_views(all));
    merge_by_id(batches)
}

/// `k` is the first position of `list` whose record has the given name.
pub open spec fn named_at(list: Seq<EmoteView>, name: Seq<char>, k: int) -> bool {
    &&& 0 <= k < list.len()
    &&& list[k].name == name
    &&& forall|j: int| 0 <= j < k ==> #[trigger] list[j].name != name
}

/// Some record of `list` has the given name.
pub open spec fn has_named(list: Seq<EmoteView>, name: Seq<char>) -> bool {
    exists|k: int| 0 <= k < list.len() && #[trigger] list[k].name == name
}

/// The first record of `list` with the given name.
pub open spec fn first_named(list: Seq<EmoteView>, name: Seq<char>) -> EmoteView {
    list[choose|k: int| named_at(list, name, k)]
}

/// The values of a sequence of strings.
pub open spec fn names_of(s: Seq<String>) -> Seq<Seq<char>> {
    s.map_values(|x: String| x@)
}

/// For each requested name, the first record of its list.
pub open spec fn picks(names: Seq<Seq<char>>, lists: Seq<Seq<EmoteView>>) -> Seq<EmoteView> {
    Seq::new(names.len(), |i: int| first_named(lists[i], names[i]))
}

/// `j` is the first requested name whose list holds no record of that name.
pub open spec fn first_unmatched(names: Seq<Seq<char>>, lists: Seq<Seq<EmoteView>>, j: int) -> bool {
    &&& 0 <= j < names.len()
    &&& !has_named(lists[j], names[j])
    &&& forall|k: int| 0 <= k < j ==> #[trigger] has_named(lists[k], names[k])
}

/// For each requested name, takes from its list (`lists[i]` for `names[i]`)
/// the first record whose name equals it exactly. A name without such a
/// record fails the lookup with the first such name.
pub fn pick_by_name(names: &Vec<String>, lists: Vec<Vec<Emote>>) -> (r: Result<EmoteMap, ProviderError>)
    requires
        lists@.len() == names@.len(),
    ensures
        r is Ok <==> forall|i: int| 0 <= i < names@.len() ==> #[trigger] has_named(batch_views(lists@)[i], names_of(names@)[i]),
        r matches Ok(m) ==> (m.wf() && m.key_field() == KeyField::Name && m.view() == overwrite(
            Map::empty(),
            picks(names_of(names@), batch_views(lists@)),
            KeyField::Name,
        )),
        r matches Err(e) ==> exists|j: int|
            first_unmatched(names_of(names@), batch_views(lists@), j) && (e matches ProviderError::NotFound(x) && x@ == names@[j]@),
{
    let ghost lv = batch_views(lists@);
    let ghost nv = names_of(names@);
    let ghost want = picks(nv, lv);
    let mut m = EmoteMap::new(KeyField::Name);
    let mut i: usize = 0;
    while i < names.len()
        invariant
            lists@.len() == names@.len(),
            lv == batch_views(lists@),
            nv == names_of(names@),
            want == picks(nv, lv),
            i <= names@.len(),
            m.wf(),
            m.key_field() == KeyField::Name,
            forall|k: int| 0 <= k < i ==> #[trigger] has_named(lv[k], nv[k]),
            m.view() == overwrite(Map::empty(), want.subrange(0, i as int), KeyField::Name),
        decreases names.len() - i,
    {
        let list = &lists[i];
        let mut k: usize = 0;
        let mut found: bool = false;
        while !found && k < list.len()
            invariant
                i < names@.len(),
                lists@.len() == names@.len(),
                list@ == lists@[i as int]@,
                k <= list@.len(),
                found ==> (k < list@.len() && list@[k as int]@.name == names@[i as int]@),
                forall|j: int| 0 <= j < k ==> #[trigger] list@[j]@.name != names@[i as int]@,
            decreases list.len() - k + (if found { 0int } else { 1int }),
        {
            if list[k].name.eq(&names[i]) {
                found = true;
            } else {
                k = k + 1;
            }
        }
        if !found {
            proof {
                assert(lv[i as int] == views(list@));
                assert(nv[i as int] == names@[i as int]@);
                assert forall|j: int| 0 <= j < lv[i as int].len() implies #[trigger] lv[i as int][j].name != nv[i as int] by {
                    assert(lv[i as int][j] == list@[j]@);
                }
                assert(first_unmatched(nv, lv, i as int));
            }
            return Err(ProviderError::NotFound(names[i].clone()));
        }
        proof {
            assert(k < list@.len());
            assert(lv[i as int] == views(list@));
            assert(nv[i as int] == names@[i as int]@);
            assert forall|j: int| 0 <= j < k implies #[trigger] lv[i as int][j].name != nv[i as int] by {
                assert(lv[i as int][j] == list@[j]@);
            }
            assert(named_at(lv[i as int], nv[i as int], k as int));
            assert(has_named(lv[i as int], nv[i as int]));
            let c = choose|c: int| named_at(lv[i as int], nv[i as int], c);
            assert(c == k);
            assert(want[i as int] == list@[k as int]@);
            assert(want.subrange(0, i + 1).drop_last() =~= want.subrange(0, i as int));
        }
        m.insert(list[k].copy());
        i = i + 1;
    }
    assert(want.subrange(0, i as int) =~= want);
    Ok(m)
}

/// Builds the startup table keyed by name from the trending listing and the
/// top-ranked listing: trending records are folded in first, and a name
/// already held keeps its first record.
pub fn merge_top(trending: Vec<Emote>, top: Vec<Emote>) -> (r: EmoteMap)
    ensures
        r.wf(),
        r.key_field() == KeyField::Name,
        r.view() == keep_first(
            keep_first(Map::empty(), views(trending@), KeyField::Name),
            views(top@),
            KeyField::Name,
        ),
{
    let mut m = EmoteMap::new(KeyField::Name);
    m.insert_all_if_absent(trending);
    m.insert_all_if_absent(top);
    m
}

/// Completes the startup table: each persisted override is stored under its
/// name, replacing any listing record of that name.
pub fn seed_registry(listed: EmoteMap, overrides: EmoteMap) -> (r: EmoteMap)
    requires
        listed.wf(),
        listed.key_field() == KeyField::Name,
    ensures
        r.wf(),
        r.key_field() == KeyField::Name,
        r.view() == overwrite(listed.view(), overrides.records(), KeyField::Name),
{
    let mut m = listed;
    m.insert_all(overrides.into_entries());
    m
}

proof fn lemma_keep_first_keeps(m: Map<Seq<char>, EmoteView>, s: Seq<EmoteView>, f: KeyField, k: Seq<char>)
    requires
        m.contains_key(k),
    ensures
        keep_first(m, s, f).contains_key(k),
        keep_first(m, s, f)[k] == m[k],
    decreases s.len(),
{
    if s.len() > 0 {
        lemma_keep_first_keeps(m, s.drop_last(), f, k);
    }
}

proof fn lemma_keep_first_from(m: Map<Seq<char>, EmoteView>, s: Seq<EmoteView>, f: KeyField, k: Seq<char>)
    requires
        !m.contains_key(k),
        keep_first(m, s, f).contains_key(k),
    ensures
        exists|j: int| 0 <= j < s.len() && key_of(#[trigger] s[j], f) == k,
    decreases s.len(),
{
    if s.len() > 0 {
        let prev = keep_first(m, s.drop_last(), f);
        if prev.contains_key(k) {
            lemma_keep_first_from(m, s.drop_last(), f, k);
            let j = choose|j: int| 0 <= j < s.drop_last().len() && key_of(#[trigger] s.drop_last()[j], f) == k;
            assert(key_of(s[j], f) == k);
        } else {
            assert(key_of(s[s.len() - 1], f) == k);
        }
    }
}

proof fn lemma_keep_first_first(m: Map<Seq<char>, EmoteView>, s: Seq<EmoteView>, f: KeyField, i: int)
    requires
        0 <= i < s.len(),
        !m.contains_key(key_of(s[i], f)),
        forall|j: int| 0 <= j < i ==> key_of(#[trigger] s[j], f) != key_of(s[i], f),
    ensures
        keep_first(m, s, f).contains_key(key_of(s[i], f)),
        keep_first(m, s, f)[key_of(s[i], f)] == s[i],
    decreases s.len(),
{
    let k = key_of(s[i], f);
    let prev = keep_first(m, s.drop_last(), f);
    if i < s.len() - 1 {
        assert(s.drop_last()[i] == s[i]);
        assert forall|j: int| 0 <= j < i implies key_of(#[trigger] s.drop_last()[j], f) != k by {
            assert(s.drop_last()[j] == s[j]);
        }
        lemma_keep_first_first(m, s.drop_last(), f, i);
    } else {
        if prev.contains_key(k) {
            lemma_keep_first_from(m, s.drop_last(), f, k);
            let j = choose|j: int| 0 <= j < s.drop_last().len() && key_of(#[trigger] s.drop_last()[j], f) == k;
            assert(s.drop_last()[j] == s[j]);
        }
    }
}

/// On a name present in both the trending and the top-ranked listing, the
/// startup table holds the trending record: the first trending record of that
/// name, whatever the top-ranked listing holds.
pub proof fn lemma_trending_wins(trending: Seq<EmoteView>, top: Seq<EmoteView>, i: int)
    requires
        0 <= i < trending.len(),
        forall|j: int| 0 <= j < i ==> (#[trigger] trending[j]).name != trending[i].name,
    ensures
        keep_first(keep_first(Map::empty(), trending, KeyField::Name), top, KeyField::Name).contains_key(
            trending[i].name,
        ),
        keep_first(keep_first(Map::empty(), trending, KeyField::Name), top, KeyField::Name)[trending[i].name]
            == trending[i],
{
    lemma_keep_first_first(Map::empty(), trending, KeyField::Name, i);
    lemma_keep_first_keeps(
        keep_first(Map::empty(), trending, KeyField::Name),
        top,
        KeyField::Name,
        trending[i].name,
    );
}

/// A persisted override replaces any listing record of its name: after
/// seeding, the name shows the last override stored under it.
pub proof fn lemma_override_wins(listed: Map<Seq<char>, EmoteView>, overrides: Seq<EmoteView>, i: int)
    requires
        0 <= i < overrides.len(),
        forall|j: int| i < j < overrides.len() ==> (#[trigger] overrides[j]).name != overrides[i].name,
    ensures
        overwrite(listed, overrides, KeyField::Name).contains_key(overrides[i].name),
        overwrite(listed, overrides, KeyField::Name)[overrides[i].name] == overrides[i],
    decreases overrides.len(),
{
    if i < overrides.len() - 1 {
        assert(overrides.drop_last()[i] == overrides[i]);
        assert forall|j: int| i < j < overrides.drop_last().len() implies (#[trigger] overrides.drop_last()[j]).name
            != overrides[i].name by {
            assert(overrides.drop_last()[j] == overrides[j]);
        }
        lemma_override_wins(listed, overrides.drop_last(), i);
        assert(overrides.last().name != overrides[i].name);
    }
}

/// Storing records over a table is the table updated by the records' own table.
pub proof fn lemma_overwrite_union(m: Map<Seq<char>, EmoteView>, s: Seq<EmoteView>, f: KeyField)
    ensures
        overwrite(m, s, f) == m.union_prefer_right(overwrite(Map::empty(), s, f)),
    decreases s.len(),
{
    if s.len() == 0 {
        assert(m.union_prefer_right(Map::empty()) =~= m);
    } else {
        lemma_overwrite_union(m, s.drop_last(), f);
        assert(overwrite(m, s, f) =~= m.union_prefer_right(overwrite(Map::empty(), s, f)));
    }
}

/// The tables of the given batches merged in order, a later one winning on a shared key.
pub open spec fn union_all(batches: Seq<Seq<EmoteView>>) -> Map<Seq<char>, EmoteView>
    decreases batches.len(),
{
    if batches.len() == 0 {
        Map::empty()
    } else {
        union_all(batches.drop_last()).union_prefer_right(
            overwrite(Map::empty(), batches.last(), KeyField::Id),
        )
    }
}

/// The table merged from id batches is exactly the union of the batches'
/// own tables keyed by id.
pub proof fn lemma_merge_is_union(batches: Seq<Seq<EmoteView>>)
    ensures
        overwrite(Map::empty(), concat_all(batches), KeyField::Id) == union_all(batches),
    decreases batches.len(),
{
    if batches.len() > 0 {
        lemma_merge_is_union(batches.drop_last());
        lemma_overwrite_concat(Map::empty(), concat_all(batches.drop_last()), batches.last(), KeyField::Id);
        lemma_overwrite_union(
            overwrite(Map::empty(), concat_all(batches.drop_last()), KeyField::Id),
            batches.last(),
            KeyField::Id,
        );
    }
}

} // verus!
