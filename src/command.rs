use vstd::prelude::*;
use vstd::string::*;
use crate::emote::{views, Emote, EmoteView};
use crate::resolve::{Lookup, ProviderError};
use crate::table::{overwrite, EmoteMap, KeyField};

verus! {

/// One option of the administrative add command, with its text value if it has one.
#[derive(Clone, Debug)]
pub struct CommandOption {
    pub name: String,
    pub value: Option<String>,
}

/// Why the administrative command was not run.
#[derive(Debug)]
pub enum CommandError {
    /// Not exactly one option was given.
    Usage,
    /// The one option given is not one the command knows.
    UnknownOption,
}

/// A stored override: in guild `guild_id`, trigger `emote_name` shows emote `emote_id`.
/// Storing one first removes any override of the same guild and name.
#[derive(Clone, Debug)]
pub struct PersistedOverride {
    pub guild_id: String,
    pub emote_name: String,
    pub emote_id: String,
}

pub const OPTION_ID: &'static str = "id";

pub const OPTION_NAME: &'static str = "name";

pub const OPTION_CHANNEL: &'static str = "channel_id";

pub const COMMA: &'static str = ",";

/// The reply to a command that does not give exactly one option.
pub const USAGE_REPLY: &'static str = "Please provide either an emote id or name or channel id";

/// The reply to a command whose lookup failed.
pub const FAILURE_REPLY: &'static str = "Failed to get emotes";

pub const ADDED_HEADER: &'static str = "Added emotes:\n";

pub const ADDED_ITEM: &'static str = " - ";

pub const NEWLINE: &'static str = "\n";

/// `s` with leading and trailing white space removed, as std's trim does it.
pub uninterp spec fn trim_of(s: Seq<char>) -> Seq<char>;

/// Relies on str::trim: removes leading and trailing Unicode white space;
/// the result depends on the text alone.
#[verifier::external_body]
fn trim(s: &str) -> (r: String)
    ensures
        r@ == trim_of(s@),
{
    s.trim().to_owned()
}

/// The pieces of `s` between commas, in order; no comma gives one piece.
pub open spec fn split_commas(s: Seq<char>) -> Seq<Seq<char>>
    decreases s.len(),
{
    if s.len() == 0 {
        seq![Seq::empty()]
    } else {
        let prev = split_commas(s.drop_last());
        if s.last() == ',' {
            prev.push(Seq::empty())
        } else {
            prev.update(prev.len() - 1, prev.last().push(s.last()))
        }
    }
}

proof fn lemma_split_nonempty(s: Seq<char>)
    ensures
        split_commas(s).len() >= 1,
    decreases s.len(),
{
    if s.len() > 0 {
        lemma_split_nonempty(s.drop_last());
    }
}

/// The values of an option's text: its pieces between commas, each trimmed.
pub open spec fn option_values(s: Seq<char>) -> Seq<Seq<char>> {
    split_commas(s).map_values(|p: Seq<char>| trim_of(p))
}

/// Splits `s` at each comma and trims each piece.
pub fn split_values(s: &str) -> (r: Vec<String>)
    ensures
        r@.map_values(|x: String| x@) == option_values(s@),
{
    let n = s.unicode_len();
    let mut pieces: Vec<String> = Vec::new();
    let mut cur = String::new();
    let mut i: usize = 0;
    proof { reveal_strlit(","); }
    while i < n
        invariant
            n == s@.len(),
            i <= n,
            pieces@.map_values(|x: String| x@).push(cur@) == split_commas(s@.subrange(0, i as int)),
        decreases n - i,
    {
        let c = s.get_char(i);
        proof {
            assert(s@.subrange(0, i + 1).drop_last() =~= s@.subrange(0, i as int));
            lemma_split_nonempty(s@.subrange(0, i as int));
        }
        let ghost prev = split_commas(s@.subrange(0, i as int));
        if c == ',' {
            let done = cur;
            pieces.push(done);
            cur = String::new();
            assert(pieces@.map_values(|x: String| x@).push(cur@) =~= prev.push(Seq::empty()));
        } else {
            let ghost old_cur = cur@;
            let one = s.substring_char(i, i + 1);
            assert(one@ =~= seq![c]);
            cur.append(one);
            assert(cur@ =~= old_cur.push(c));
            assert(prev.last() == old_cur);
            assert(prev.len() - 1 == pieces@.len());
            assert(pieces@.map_values(|x: String| x@).push(cur@) =~= prev.update(
                prev.len() - 1,
                prev.last().push(c),
            ));
        }
        i = i + 1;
    }
    assert(s@.subrange(0, n as int) =~= s@);
    pieces.push(cur);
    let ghost all = pieces@.map_values(|x: String| x@);
    let mut out: Vec<String> = Vec::new();
    let mut k: usize = 0;
    while k < pieces.len()
        invariant
            all == pieces@.map_values(|x: String| x@),
            all == split_commas(s@),
            k <= pieces@.len(),
            out@.len() == k,
            forall|j: int| 0 <= j < k ==> #[trigger] out@[j]@ == trim_of(all[j]),
        decreases pieces.len() - k,
    {
        out.push(trim(pieces[k].as_str()));
        k = k + 1;
    }
    assert(out@.map_values(|x: String| x@) =~= option_values(s@));
    out
}

fn is_named(s: &String, lit: &str) -> (r: bool)
    ensures
        r == (s@ == lit@),
{
    let l = String::from_str(lit);
    s.eq(&l)
}

/// The values carried by an option: none when it has no text.
pub open spec fn values_of(o: CommandOption) -> Seq<Seq<char>> {
    match o.value {
        Some(v) => option_values(v@),
        None => Seq::empty(),
    }
}

/// Reads the command's options: exactly one of `id`, `name` or `channel_id`,
/// each a comma-separated list, gives the matching lookup.
pub fn parse_command(options: &Vec<CommandOption>) -> (r: Result<Lookup, CommandError>)
    ensures
        options@.len() != 1 ==> r matches Err(CommandError::Usage),
        options@.len() == 1 && options@[0].name@ == OPTION_ID@ ==> (r matches Ok(Lookup::ById(v))
            && v@.map_values(|x: String| x@) == values_of(options@[0])),
        options@.len() == 1 && options@[0].name@ == OPTION_NAME@ ==> (r matches Ok(
            Lookup::ByName(v),
        ) && v@.map_values(|x: String| x@) == values_of(options@[0])),
        options@.len() == 1 && options@[0].name@ == OPTION_CHANNEL@ ==> (r matches Ok(
            Lookup::ByChannel(v),
        ) && v@.map_values(|x: String| x@) == values_of(options@[0])),
        options@.len() == 1 && options@[0].name@ != OPTION_ID@ && options@[0].name@
            != OPTION_NAME@ && options@[0].name@ != OPTION_CHANNEL@ ==> r matches Err(
            CommandError::UnknownOption,
        ),
{
    if options.len() != 1 {
        return Err(CommandError::Usage);
    }
    proof {
        reveal_strlit("id");
        reveal_strlit("name");
        reveal_strlit("channel_id");
        assert(OPTION_ID@.len() == 2);
        assert(OPTION_NAME@.len() == 4);
        assert(OPTION_CHANNEL@.len() == 10);
    }
    let o = &options[0];
    let values = match &o.value {
        Some(v) => split_values(v.as_str()),
        None => {
            let v: Vec<String> = Vec::new();
            assert(v@.map_values(|x: String| x@) =~= Seq::<Seq<char>>::empty());
            v
        },
    };
    if is_named(&o.name, OPTION_ID) {
        Ok(Lookup::ById(values))
    } else if is_named(&o.name, OPTION_NAME) {
        Ok(Lookup::ByName(values))
    } else if is_named(&o.name, OPTION_CHANNEL) {
        Ok(Lookup::ByChannel(values))
    } else {
        Err(CommandError::UnknownOption)
    }
}

/// The reply that lists the added records by name, one line each.
pub open spec fn added_lines(s: Seq<EmoteView>) -> Seq<char>
    decreases s.len(),
{
    if s.len() == 0 {
        Seq::empty()
    } else {
        added_lines(s.drop_last()) + ADDED_ITEM@ + s.last().name + NEWLINE@
    }
}

/// The reply to a successful command.
pub open spec fn added_reply(s: Seq<EmoteView>) -> Seq<char> {
    ADDED_HEADER@ + added_lines(s)
}

/// The override stored for a record in a guild.
pub open spec fn override_matches(o: PersistedOverride, guild: Seq<char>, e: EmoteView) -> bool {
    o.guild_id@ == guild && o.emote_name@ == e.name && o.emote_id@ == e.id
}

/// Completes a successful lookup: every record found is stored in the
/// registry under its name, one override per record is made for the guild,
/// and the reply lists the records' names.
pub fn apply_added(registry: &mut EmoteMap, added: EmoteMap, guild_id: &String) -> (r: (
    Vec<PersistedOverride>,
    String,
))
    requires
        old(registry).wf(),
        old(registry).key_field() == KeyField::Name,
    ensures
        final(registry).wf(),
        final(registry).key_field() == KeyField::Name,
        final(registry).view() == overwrite(old(registry).view(), added.records(), KeyField::Name),
        r.0@.len() == added.records().len(),
        forall|i: int| 0 <= i < r.0@.len() ==> override_matches(#[trigger] r.0@[i], guild_id@, added.records()[i]),
        r.1@ == added_reply(added.records()),
{
    let ghost recs = added.records();
    let entries = added.entries();
    let mut overrides: Vec<PersistedOverride> = Vec::new();
    let mut reply = String::new();
    reply.append(ADDED_HEADER);
    let mut i: usize = 0;
    while i < entries.len()
        invariant
            views(entries@) == recs,
            i <= entries@.len(),
            overrides@.len() == i,
            forall|j: int| 0 <= j < i ==> override_matches(#[trigger] overrides@[j], guild_id@, recs[j]),
            reply@ == ADDED_HEADER@ + added_lines(recs.subrange(0, i as int)),
        decreases entries.len() - i,
    {
        let e = &entries[i];
        overrides.push(PersistedOverride {
            guild_id: guild_id.clone(),
            emote_name: e.name.clone(),
            emote_id: e.id.clone(),
        });
        reply.append(ADDED_ITEM);
        reply.append(e.name.as_str());
        reply.append(NEWLINE);
        proof {
            assert(recs[i as int] == e@);
            assert(recs.subrange(0, i + 1).drop_last() =~= recs.subrange(0, i as int));
            assert(reply@ =~= ADDED_HEADER@ + added_lines(recs.subrange(0, i + 1)));
        }
        i = i + 1;
    }
    assert(recs.subrange(0, i as int) =~= recs);
    registry.insert_all(added.into_entries());
    (overrides, reply)
}

/// Completes the command once its lookup has run: on success the records
/// are added as `apply_added` says; on failure nothing is stored, no
/// override is made and the reply is the generic failure message.
pub fn finish_command(
    registry: &mut EmoteMap,
    outcome: Result<EmoteMap, ProviderError>,
    guild_id: &String,
) -> (r: (Vec<PersistedOverride>, String))
    requires
        old(registry).wf(),
        old(registry).key_field() == KeyField::Name,
    ensures
        final(registry).wf(),
        final(registry).key_field() == KeyField::Name,
        outcome matches Ok(added) ==> (final(registry).view() == overwrite(
            old(registry).view(),
            added.records(),
            KeyField::Name,
        ) && r.0@.len() == added.records().len() && (forall|i: int|
            0 <= i < r.0@.len() ==> override_matches(#[trigger] r.0@[i], guild_id@, added.records()[i]))
            && r.1@ == added_reply(added.records())),
        outcome is Err ==> (final(registry).view() == old(registry).view() && r.0@.len() == 0 && r.1@
            == FAILURE_REPLY@),
{
    match outcome {
        Ok(added) => apply_added(registry, added, guild_id),
        Err(_) => (Vec::new(), String::from_str(FAILURE_REPLY)),
    }
}

/// The reply to a command that does not give exactly one option.
pub fn usage_reply() -> (r: String)
    ensures
        r@ == USAGE_REPLY@,
{
    String::from_str(USAGE_REPLY)
}

} // verus!
