use vstd::prelude::*;
use vstd::string::*;
use crate::emote::{Emote, EmoteView};
use crate::table::{EmoteMap, KeyField};

verus! {

/// What the message handler reads of an incoming chat message.
#[derive(Clone, Debug)]
pub struct IncomingMessage {
    pub content: String,
    pub author_name: String,
    pub author_is_bot: bool,
    pub has_attachments: bool,
    pub has_embeds: bool,
    pub has_activity: bool,
    pub has_application: bool,
    pub has_reference: bool,
    /// The message is of the platform's plain, regular kind.
    pub is_regular: bool,
}

/// What to do with one incoming message.
#[derive(Debug)]
pub enum Triage {
    /// Delete the message, post the attribution, then post the emote link.
    Substitute { attribution: String, link: String },
    /// Delete the message, post the attribution, then post the transformed text.
    Transform { attribution: String, text: String },
    /// Leave the message alone.
    Ignore,
}

pub const BOLD: &'static str = "**";

pub const CDN_PREFIX: &'static str = "https://cdn.7tv.app/emote/";

pub const LINK_SIZE: &'static str = "/2x.";

pub const ANIMATED_EXT: &'static str = "gif";

pub const STILL_EXT: &'static str = "png";

pub const HTTP_SCHEME: &'static str = "http://";

pub const HTTPS_SCHEME: &'static str = "https://";

pub const PERIOD: &'static str = ".";

/// The longest content, in characters, that the text transform is applied to:
/// its working buffers must stay addressable.
pub const MAX_CONTENT_CHARS: usize = 0x0100_0000;

/// The transformed text of `s`, as the text transform computes it.
pub uninterp spec fn uwu_of(s: Seq<char>) -> Seq<char>;

/// Relies on uwuifier::uwuify_str_sse: its result depends on the text alone
/// (its random choices come from a generator with a fixed seed). It needs a
/// processor with SSE4.1, which it checks and otherwise panics on.
#[verifier::external_body]
fn uwuify(s: &str) -> (r: String)
    requires
        s@.len() <= MAX_CONTENT_CHARS,
    ensures
        r@ == uwu_of(s@),
{
    uwuifier::uwuify_str_sse(s)
}

/// Relies on rand::random: a u32 drawn uniformly by the thread's generator;
/// nothing is promised of its value.
#[verifier::external_body]
fn draw_roll() -> (r: u32) {
    rand::random::<u32>()
}

/// Whether `s` starts with `p`.
pub open spec fn starts_with(s: Seq<char>, p: Seq<char>) -> bool {
    p.len() <= s.len() && s.subrange(0, p.len() as int) == p
}

/// The attribution line posted for an author.
pub open spec fn attribution_of(author: Seq<char>) -> Seq<char> {
    BOLD@ + author + BOLD@
}

/// The link posted in place of a recognized trigger.
pub open spec fn emote_link(e: EmoteView) -> Seq<char> {
    CDN_PREFIX@ + e.id + LINK_SIZE@ + (if e.animated { ANIMATED_EXT@ } else { STILL_EXT@ })
}

/// Whether a message may be transformed at all: plain, non-empty text that
/// is not a link, from a person, with nothing attached or referenced.
pub open spec fn may_transform(m: IncomingMessage) -> bool {
    &&& m.content@.len() > 0
    &&& !starts_with(m.content@, HTTP_SCHEME@)
    &&& !starts_with(m.content@, HTTPS_SCHEME@)
    &&& !m.has_attachments
    &&& !m.has_embeds
    &&& !m.has_activity
    &&& !m.has_application
    &&& !m.has_reference
    &&& m.is_regular
    &&& !m.author_is_bot
}

/// Whether a uniform draw `roll` out of 2^32 falls below one in a hundred.
pub open spec fn roll_hits(roll: u32) -> bool {
    (roll as int) * 100 < 0x1_0000_0000
}

/// Whether `s` starts with `p`.
pub fn has_prefix(s: &str, p: &str) -> (r: bool)
    ensures
        r == starts_with(s@, p@),
{
    let n = s.unicode_len();
    let m = p.unicode_len();
    if m > n {
        return false;
    }
    let mut i: usize = 0;
    while i < m
        invariant
            n == s@.len(),
            m == p@.len(),
            m <= n,
            i <= m,
            forall|j: int| 0 <= j < i ==> s@[j] == p@[j],
        decreases m - i,
    {
        if s.get_char(i) != p.get_char(i) {
            proof {
                assert(s@.subrange(0, m as int)[i as int] != p@[i as int]);
            }
            return false;
        }
        i = i + 1;
    }
    assert(s@.subrange(0, m as int) =~= p@);
    true
}

/// The attribution line for an author: the name in bold.
pub fn attribution(author: &str) -> (r: String)
    ensures
        r@ == attribution_of(author@),
{
    let mut s = String::new();
    s.append(BOLD);
    s.append(author);
    s.append(BOLD);
    s
}

/// The link to an emote's image: animated emotes as gif, others as png.
pub fn link_for(e: &Emote) -> (r: String)
    ensures
        r@ == emote_link(e@),
{
    let mut s = String::new();
    s.append(CDN_PREFIX);
    s.append(e.id.as_str());
    s.append(LINK_SIZE);
    if e.animated {
        s.append(ANIMATED_EXT);
    } else {
        s.append(STILL_EXT);
    }
    s
}

/// Whether a message may be transformed at all.
pub fn transform_allowed(m: &IncomingMessage) -> (r: bool)
    ensures
        r == may_transform(*m),
{
    m.content.unicode_len() > 0 && !has_prefix(m.content.as_str(), HTTP_SCHEME) && !has_prefix(
        m.content.as_str(),
        HTTPS_SCHEME,
    ) && !m.has_attachments && !m.has_embeds && !m.has_activity && !m.has_application
        && !m.has_reference && m.is_regular && !m.author_is_bot
}

/// Whether a uniform draw out of 2^32 falls below one in a hundred.
pub fn roll_taken(roll: u32) -> (r: bool)
    ensures
        r == roll_hits(roll),
{
    (roll as u64) * 100 < 0x1_0000_0000u64
}

/// Decides what to do with a message, given the transform of its content
/// (`transformed`), the transform of its content with a period appended
/// (`punctuated`) and a uniform draw out of 2^32 (`roll`). A message whose
/// whole content is a trigger of the registry is substituted. Otherwise a
/// message that may be transformed, whose transform differs from it, is
/// transformed when the draw falls below one in a hundred, and the posted
/// text is the punctuated transform. Anything else is left alone.
pub fn decide(
    registry: &EmoteMap,
    msg: &IncomingMessage,
    transformed: &String,
    punctuated: &String,
    roll: u32,
) -> (r: Triage)
    requires
        registry.wf(),
        registry.key_field() == KeyField::Name,
    ensures
        registry.view().contains_key(msg.content@) ==> (r matches Triage::Substitute {
            attribution: a,
            link: l,
        } && a@ == attribution_of(msg.author_name@) && l@ == emote_link(
            registry.view()[msg.content@],
        )),
        !registry.view().contains_key(msg.content@) && may_transform(*msg) && transformed@
            != msg.content@ && roll_hits(roll) ==> (r matches Triage::Transform {
            attribution: a,
            text: t,
        } && a@ == attribution_of(msg.author_name@) && t@ == punctuated@),
        !registry.view().contains_key(msg.content@) && !(may_transform(*msg) && transformed@
            != msg.content@ && roll_hits(roll)) ==> r is Ignore,
{
    match registry.get(&msg.content) {
        Some(e) => Triage::Substitute {
            attribution: attribution(msg.author_name.as_str()),
            link: link_for(e),
        },
        None => {
            if transform_allowed(msg) && !transformed.eq(&msg.content) && roll_taken(roll) {
                Triage::Transform {
                    attribution: attribution(msg.author_name.as_str()),
                    text: punctuated.clone(),
                }
            } else {
                Triage::Ignore
            }
        },
    }
}

/// The text to post if a message not holding a trigger is transformed: the
/// transform of its content with a period appended, when the message may be
/// transformed and the transform changes its content; `None` otherwise.
pub fn prepare_transform(msg: &IncomingMessage) -> (r: Option<String>)
    requires
        msg.content@.len() < MAX_CONTENT_CHARS,
    ensures
        (may_transform(*msg) && uwu_of(msg.content@) != msg.content@) <==> r is Some,
        r matches Some(t) ==> t@ == uwu_of(msg.content@ + PERIOD@),
{
    if !transform_allowed(msg) {
        return None;
    }
    let transformed = uwuify(msg.content.as_str());
    if transformed.eq(&msg.content) {
        return None;
    }
    let mut with_period = msg.content.clone();
    with_period.append(PERIOD);
    proof {
        reveal_strlit(".");
        assert(PERIOD@.len() == 1);
    }
    Some(uwuify(with_period.as_str()))
}

/// Handles one incoming message against the registry: a trigger is
/// substituted; a message that may be transformed and that the transform
/// changes is transformed (content with a period appended) one time in a
/// hundred at random; anything else is left alone.
pub fn triage(registry: &EmoteMap, msg: &IncomingMessage) -> (r: Triage)
    requires
        registry.wf(),
        registry.key_field() == KeyField::Name,
        msg.content@.len() < MAX_CONTENT_CHARS,
    ensures
        registry.view().contains_key(msg.content@) ==> (r matches Triage::Substitute {
            attribution: a,
            link: l,
        } && a@ == attribution_of(msg.author_name@) && l@ == emote_link(
            registry.view()[msg.content@],
        )),
        !registry.view().contains_key(msg.content@) && !(may_transform(*msg) && uwu_of(
            msg.content@,
        ) != msg.content@) ==> r is Ignore,
        !registry.view().contains_key(msg.content@) ==> (r is Ignore || (r matches Triage::Transform {
            attribution: a,
            text: t,
        } && a@ == attribution_of(msg.author_name@) && t@ == uwu_of(msg.content@ + PERIOD@))),
{
    match registry.get(&msg.content) {
        Some(e) => Triage::Substitute {
            attribution: attribution(msg.author_name.as_str()),
            link: link_for(e),
        },
        None => match prepare_transform(msg) {
            None => Triage::Ignore,
            Some(punctuated) => {
                if roll_taken(draw_roll()) {
                    Triage::Transform { attribution: attribution(msg.author_name.as_str()), text: punctuated }
                } else {
                    Triage::Ignore
                }
            },
        },
    }
}

} // verus!
