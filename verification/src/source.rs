use vstd::prelude::*;
use unicode_segmentation::UnicodeSegmentation;
use crate::text::{string_of, strings_view, concat};
use crate::common::{byte_len, utf8_size};

verus! {

/// What `UnicodeSegmentation::graphemes(text, true)` yields for `text`: its extended
/// grapheme clusters, in order.
pub uninterp spec fn spec_graphemes(text: Seq<char>) -> Seq<Seq<char>>;

/// Calls `UnicodeSegmentation::graphemes(text, true)` and copies each cluster.
/// Claimed: the result is `spec_graphemes(text)`; the clusters are consecutive slices
/// of `text` from its start to its end (the iterator yields `&text[start..next]` with
/// `next` the following boundary), so together they spell `text`, and none is empty.
/// Which boundaries Unicode's rules pick is left unsaid.
#[verifier::external_body]
pub(crate) fn split_graphemes(text: &str) -> (r: Vec<String>)
    ensures
        strings_view(r@) == spec_graphemes(text@),
        concat(strings_view(r@)) == text@,
        forall|i: int| 0 <= i < r@.len() ==> (#[trigger] r@[i])@.len() > 0,
{
    text.graphemes(true).map(|g| g.to_string()).collect()
}

/// The text of a source file, with its grapheme clusters.
#[derive(Debug)]
pub struct Source {
    pub name: String,
    pub body: String,
    pub graphemes: Vec<String>,
}

impl Source {
    /// The graphemes spell the body, none of them is empty, the body's length in
    /// characters fits in a `usize` with room to spare, and its length in bytes fits.
    pub open spec fn wf(&self) -> bool {
        &&& concat(strings_view(self.graphemes@)) == self.body@
        &&& forall|i: int| 0 <= i < self.graphemes@.len() ==> (#[trigger] self.graphemes@[i])@.len() > 0
        &&& self.body@.len() < usize::MAX
        &&& utf8_size(self.body@) <= usize::MAX
    }

    /// A source named `name` holding `body`, split into grapheme clusters.
    pub fn new(name: &str, body: &str) -> (r: Source)
        requires
            body@.len() < usize::MAX,
        ensures
            r.name@ == name@,
            r.body@ == body@,
            strings_view(r.graphemes@) == spec_graphemes(body@),
            r.wf(),
    {
        let new_body = string_of(body);
        let _bytes = byte_len(body);
        let graphemes = split_graphemes(new_body.as_str());
        Source { name: string_of(name), body: new_body, graphemes }
    }

    /// Adds this source to `sources` and returns its identifier.
    pub fn register(self, sources: &mut Sources) -> (r: SourceId)
        ensures
            final(sources).sources@ == old(sources).sources@.push(self),
            final(sources).paths@.len() == old(sources).paths@.len() + 1,
            final(sources).paths@.last()@ == self.name@,
            final(sources).paths@.drop_last() == old(sources).paths@,
            r.0 == old(sources).sources@.len() as u32,
    {
        sources.add(self)
    }
}

/// The identifier of a source in a `Sources` collection: its index.
#[derive(Clone, Copy, PartialEq, Eq, Structural, PartialOrd, Ord, Debug)]
pub struct SourceId(pub u32);

impl SourceId {
    /// The source this identifier stands for.
    pub fn get<'a>(&self, sources: &'a Sources) -> (r: &'a Source)
        requires
            (self.0 as int) < sources.sources@.len(),
        ensures
            *r == sources.sources@[self.0 as int],
    {
        let i: usize = self.0 as usize;
        &sources.sources[i]
    }
}

/// All sources of a program, in the order they were added, with their names.
pub struct Sources {
    pub sources: Vec<Source>,
    pub paths: Vec<String>,
}

impl Sources {
    /// No sources.
    pub fn new() -> (r: Sources)
        ensures
            r.sources@.len() == 0,
            r.paths@.len() == 0,
    {
        Sources { sources: Vec::new(), paths: Vec::new() }
    }

    /// Adds `source` at the end and returns its index as an identifier (truncated to
    /// 32 bits).
    pub fn add(&mut self, source: Source) -> (r: SourceId)
        ensures
            final(self).sources@ == old(self).sources@.push(source),
            final(self).paths@.len() == old(self).paths@.len() + 1,
            final(self).paths@.last()@ == source.name@,
            final(self).paths@.drop_last() == old(self).paths@,
            r.0 == old(self).sources@.len() as u32,
    {
        let name = source.name.clone();
        let index = self.sources.len();
        self.sources.push(source);
        self.paths.push(name);
        SourceId(index as u32)
    }

    /// The source with the given identifier, if there is one.
    pub fn get(&self, source_id: SourceId) -> (r: Option<&Source>)
        ensures
            r is Some <==> (source_id.0 as int) < self.sources@.len(),
            r matches Some(s) ==> *s == self.sources@[source_id.0 as int],
    {
        let i: usize = source_id.0 as usize;
        if i < self.sources.len() {
            Some(&self.sources[i])
        } else {
            None
        }
    }

    /// The source named `path` first: the lookup goes by the index of the first equal
    /// name, truncated to 32 bits as an identifier.
    pub fn get_by_path(&self, path: &str) -> (r: Option<&Source>)
        ensures
            (forall|i: int| 0 <= i < self.paths@.len() ==> self.paths@[i]@ != path@) ==> r is None,
            forall|i: int|
                0 <= i < self.paths@.len() && self.paths@[i]@ == path@ && (forall|j: int|
                    0 <= j < i ==> self.paths@[j]@ != path@) ==> r == (if ((i as u32) as int)
                    < self.sources@.len() {
                    Some(&self.sources@[(i as u32) as int])
                } else {
                    None
                }),
    {
        let target = string_of(path);
        let mut i: usize = 0;
        while i < self.paths.len()
            invariant
                i <= self.paths@.len(),
                target@ == path@,
                forall|j: int| 0 <= j < i ==> self.paths@[j]@ != path@,
            decreases self.paths@.len() - i,
        {
            if self.paths[i] == target {
                return self.get(SourceId(i as u32));
            }
            i += 1;
        }
        None
    }
}

/// A source added to a collection is what the identifier that `add` (or `register`)
/// returned fetches, through `SourceId::get` or `Sources::get`, however many sources are
/// added after it, as long as its index fits in the 32 bits of an identifier. Here
/// `earlier` are the sources before it and `later` those added after it: `add` pushes
/// each at the end.
pub proof fn law_added_source_is_fetched(earlier: Seq<Source>, source: Source, later: Seq<Source>)
    requires
        earlier.len() <= u32::MAX,
    ensures
        ({
            let id = SourceId(earlier.len() as u32);
            let all = earlier.push(source) + later;
            &&& (id.0 as int) < all.len()
            &&& all[id.0 as int] == source
        }),
{
    let all = earlier.push(source) + later;
    assert(all[earlier.len() as int] == earlier.push(source)[earlier.len() as int]);
}

} // verus!
