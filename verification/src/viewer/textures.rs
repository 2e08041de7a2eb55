//! The textures of the images that have been drawn.

use std::collections::HashMap;
use vstd::prelude::*;

verus! {

/// Textures that are kept before all of them are made anew.
pub const MAX_TEXTURE_CACHE: usize = 100;

/// Textures by the key of their image.
pub struct TextureCache<T> {
    pub textures: HashMap<u64, T>,
}

/// The textures once another is there; one that was there already stays.
pub open spec fn with_texture<T>(textures: Map<u64, T>, key: u64, texture: T) -> Map<u64, T> {
    if textures.contains_key(key) {
        textures
    } else {
        textures.insert(key, texture)
    }
}

/// The textures once all images of a ticket have been drawn.
pub open spec fn with_textures<T>(textures: Map<u64, T>, drawn: Seq<(u64, T)>) -> Map<u64, T>
    decreases drawn.len(),
{
    if drawn.len() == 0 {
        textures
    } else {
        let (key, texture) = drawn.last();
        with_texture(with_textures(textures, drawn.drop_last()), key, texture)
    }
}

/// The textures that are kept: all, or none where they are too many.
pub open spec fn evicted<T>(textures: Map<u64, T>) -> Map<u64, T> {
    if textures.len() > MAX_TEXTURE_CACHE {
        Map::empty()
    } else {
        textures
    }
}

/// The textures after a frame that has drawn the images of a ticket, or no ticket at all.
pub open spec fn after_frame<T>(textures: Map<u64, T>, ticket: Option<Seq<(u64, T)>>) -> Map<
    u64,
    T,
> {
    match ticket {
        Some(drawn) => evicted(with_textures(textures, drawn)),
        None => textures,
    }
}

impl<T> View for TextureCache<T> {
    type V = Map<u64, T>;

    open spec fn view(&self) -> Map<u64, T> {
        self.textures@
    }
}

impl<T> TextureCache<T> {
    /// A cache without textures.
    pub fn new() -> (cache: TextureCache<T>)
        ensures
            cache@ == Map::<u64, T>::empty(),
    {
        broadcast use vstd::std_specs::hash::group_hash_axioms;

        TextureCache { textures: HashMap::new() }
    }

    /// Number of textures.
    pub fn len(&self) -> (len: usize)
        ensures
            len == self@.len(),
    {
        broadcast use vstd::std_specs::hash::group_hash_axioms;

        self.textures.len()
    }

    /// The texture of an image, if it has been made.
    pub fn get(&self, key: u64) -> (texture: Option<&T>)
        ensures
            texture is Some <==> self@.contains_key(key),
            texture matches Some(t) ==> *t == self@[key],
    {
        broadcast use vstd::std_specs::hash::group_hash_axioms;

        self.textures.get(&key)
    }

    /// Keeps the texture of an image, unless there is one already.
    pub fn keep(&mut self, key: u64, texture: T)
        ensures
            final(self)@ == with_texture(old(self)@, key, texture),
    {
        broadcast use vstd::std_specs::hash::group_hash_axioms;

        if !self.textures.contains_key(&key) {
            self.textures.insert(key, texture);
        }
    }

    /// Forgets all textures where they are too many. They are made anew when they are next drawn.
    pub fn evict_texture_cache(&mut self)
        ensures
            final(self)@ == evicted(old(self)@),
            final(self)@.len() <= MAX_TEXTURE_CACHE,
    {
        broadcast use vstd::std_specs::hash::group_hash_axioms;

        if self.textures.len() > MAX_TEXTURE_CACHE {
            self.textures.clear();
        }
    }
}

/// The cache never holds too many textures after a frame, whatever the frame draws. A frame that
/// draws no ticket leaves it as it is.
pub proof fn lemma_textures_are_bounded<T>(textures: Map<u64, T>, ticket: Option<Seq<(u64, T)>>)
    requires
        textures.len() <= MAX_TEXTURE_CACHE,
    ensures
        after_frame(textures, ticket).len() <= MAX_TEXTURE_CACHE,
        ticket is None ==> after_frame(textures, ticket) == textures,
{
}

/// Drawing a ticket leaves the textures that were there, and adds one for every other image, as
/// long as they are not too many.
pub proof fn lemma_textures_stay<T>(textures: Map<u64, T>, drawn: Seq<(u64, T)>, key: u64)
    requires
        with_textures(textures, drawn).len() <= MAX_TEXTURE_CACHE,
    ensures
        ({
            let after = after_frame(textures, Some(drawn));
            &&& after.contains_key(key) <==> textures.contains_key(key) || exists|k: int|
                0 <= k < drawn.len() && (#[trigger] drawn[k]).0 == key
            &&& textures.contains_key(key) ==> after[key] == textures[key]
        }),
{
    lemma_drawn_textures(textures, drawn, key);
}

proof fn lemma_drawn_textures<T>(textures: Map<u64, T>, drawn: Seq<(u64, T)>, key: u64)
    ensures
        with_textures(textures, drawn).contains_key(key) <==> textures.contains_key(key) || exists|
            k: int,
        |
            0 <= k < drawn.len() && (#[trigger] drawn[k]).0 == key,
        textures.contains_key(key) ==> with_textures(textures, drawn)[key] == textures[key],
    decreases drawn.len(),
{
    if drawn.len() > 0 {
        let front = drawn.drop_last();
        lemma_drawn_textures(textures, front, key);
        if drawn.last().0 == key {
            assert(drawn[drawn.len() - 1].0 == key);
        }
        if exists|k: int| 0 <= k < front.len() && (#[trigger] front[k]).0 == key {
            let k = choose|k: int| 0 <= k < front.len() && (#[trigger] front[k]).0 == key;
            assert(drawn[k].0 == key);
        }
        if exists|k: int| 0 <= k < drawn.len() && (#[trigger] drawn[k]).0 == key {
            let k = choose|k: int| 0 <= k < drawn.len() && (#[trigger] drawn[k]).0 == key;
            if k < front.len() {
                assert(front[k].0 == key);
            }
        }
    }
}

/// Up to 100 textures all are kept after a ticket has been drawn; beyond that none is.
pub proof fn lemma_when_textures_are_forgotten<T>(textures: Map<u64, T>, drawn: Seq<(u64, T)>)
    ensures
        with_textures(textures, drawn).len() <= 100 ==> after_frame(textures, Some(drawn))
            == with_textures(textures, drawn),
        with_textures(textures, drawn).len() > 100 ==> after_frame(textures, Some(drawn)).dom()
            == Set::<u64>::empty(),
{
    assert(Map::<u64, T>::empty().dom() =~= Set::<u64>::empty());
}

/// An image keeps the texture that was made for it first.
pub proof fn lemma_first_texture_stays<T>(textures: Map<u64, T>, drawn: Seq<(u64, T)>, k: int)
    requires
        0 <= k < drawn.len(),
        !textures.contains_key(drawn[k].0),
        forall|j: int| 0 <= j < k ==> (#[trigger] drawn[j]).0 != drawn[k].0,
    ensures
        with_textures(textures, drawn).contains_key(drawn[k].0),
        with_textures(textures, drawn)[drawn[k].0] == drawn[k].1,
    decreases drawn.len(),
{
    let front = drawn.drop_last();
    if k < front.len() {
        assert(front[k] == drawn[k]);
        assert forall|j: int| 0 <= j < k implies (#[trigger] front[j]).0 != front[k].0 by {
            assert(front[j] == drawn[j]);
        }
        lemma_first_texture_stays(textures, front, k);
    } else {
        lemma_drawn_textures(textures, front, drawn[k].0);
        if with_textures(textures, front).contains_key(drawn[k].0) {
            let j = choose|j: int| 0 <= j < front.len() && (#[trigger] front[j]).0 == drawn[k].0;
            assert(drawn[j].0 == drawn[k].0);
        }
    }
}

} // verus!
