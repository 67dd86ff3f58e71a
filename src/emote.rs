use vstd::prelude::*;

verus! {

/// One file format offered by the provider for an emote.
#[derive(Clone, Debug)]
pub struct EmoteImage {
    pub format: String,
}

/// The provider's hosting information for an emote.
#[derive(Clone, Debug)]
pub struct EmoteHost {
    pub files: Vec<EmoteImage>,
}

/// An emote record as the provider describes it.
#[derive(Clone, Debug)]
pub struct Emote {
    pub id: String,
    pub name: String,
    pub host: EmoteHost,
    pub animated: bool,
}

/// A member of an emote set: the set wraps each emote in a `data` field.
#[derive(Clone, Debug)]
pub struct EmoteSetEmote {
    pub data: Emote,
}

/// The mathematical value of an emote record.
pub ghost struct EmoteView {
    pub id: Seq<char>,
    pub name: Seq<char>,
    pub animated: bool,
    pub formats: Seq<Seq<char>>,
}

impl View for EmoteHost {
    type V = Seq<Seq<char>>;

    open spec fn view(&self) -> Seq<Seq<char>> {
        self.files@.map_values(|f: EmoteImage| f.format@)
    }
}

impl View for Emote {
    type V = EmoteView;

    open spec fn view(&self) -> EmoteView {
        EmoteView {
            id: self.id@,
            name: self.name@,
            animated: self.animated,
            formats: self.host@,
        }
    }
}

/// The values of a sequence of emote records.
pub open spec fn views(s: Seq<Emote>) -> Seq<EmoteView> {
    s.map_values(|e: Emote| e@)
}

impl EmoteImage {
    /// A copy of this file entry.
    pub fn copy(&self) -> (r: EmoteImage)
        ensures
            r.format@ == self.format@,
    {
        EmoteImage { format: self.format.clone() }
    }
}

impl EmoteHost {
    /// A copy of this hosting information.
    pub fn copy(&self) -> (r: EmoteHost)
        ensures
            r@ == self@,
    {
        let mut files: Vec<EmoteImage> = Vec::new();
        let mut i: usize = 0;
        while i < self.files.len()
            invariant
                i <= self.files.len(),
                files@.len() == i,
                forall|k: int| 0 <= k < i ==> files@[k].format@ == self.files@[k].format@,
            decreases self.files.len() - i,
        {
            files.push(self.files[i].copy());
            i = i + 1;
        }
        let r = EmoteHost { files };
        assert(r@ =~= self@);
        r
    }
}

impl Emote {
    /// A copy of this record.
    pub fn copy(&self) -> (r: Emote)
        ensures
            r@ == self@,
    {
        Emote {
            id: self.id.clone(),
            name: self.name.clone(),
            host: self.host.copy(),
            animated: self.animated,
        }
    }
}

} // verus!
