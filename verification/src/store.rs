//! The requests of a run held against an archive store that looks up before
//! it makes: a second run over the same input adds nothing.
//!
//! The store is not part of this crate. It is modelled here by what it
//! remembers: the author known under each alias of each platform, and the
//! posts known by platform and source key. The only thing assumed of it is
//! that a request under a known key changes no key.

use crate::creator::{creator_step, request_for, CreatorAction, CreatorEvent, CreatorSyncView};
use crate::post::draft::PostView;
use vstd::prelude::*;

verus! {

/// The author that the store knows under `alias` on `platform`, if any.
pub open spec fn known_author(
    authors: Map<(u32, Seq<char>), u32>,
    platform: u32,
    alias: Seq<char>,
) -> Option<u32> {
    if authors.contains_key((platform, alias)) {
        Some(authors[(platform, alias)])
    } else {
        None
    }
}

/// The authors of the store after `creator` was synchronised: the creator is
/// looked up by its alias, and only if the store knows no author under it
/// is one made, to whom the store gives the identifier `fresh`.
pub open spec fn authors_after_creator(
    authors: Map<(u32, Seq<char>), u32>,
    platform: u32,
    creator: Seq<char>,
    fresh: u32,
) -> Map<(u32, Seq<char>), u32> {
    match known_author(authors, platform, creator) {
        Some(_) => authors,
        None => {
            let request = request_for(creator, platform);
            authors.insert((request.platform, request.alias), fresh)
        },
    }
}

/// The authors of the store after `creators` were synchronised in order;
/// `fresh` gives the identifier that the store would hand to a new author
/// of the creator at each place.
pub open spec fn authors_after(
    authors: Map<(u32, Seq<char>), u32>,
    platform: u32,
    creators: Seq<Seq<char>>,
    fresh: spec_fn(int) -> u32,
) -> Map<(u32, Seq<char>), u32>
    decreases creators.len(),
{
    if creators.len() == 0 {
        authors
    } else {
        authors_after_creator(
            authors_after(authors, platform, creators.drop_last(), fresh),
            platform,
            creators.last(),
            fresh(creators.len() - 1),
        )
    }
}

/// The posts of the store after `posts` were synchronised: the store keeps
/// one post for each platform and source key.
pub open spec fn posts_after(known: Set<(u32, Seq<char>)>, posts: Seq<PostView>) -> Set<
    (u32, Seq<char>),
>
    decreases posts.len(),
{
    if posts.len() == 0 {
        known
    } else {
        posts_after(known, posts.drop_last()).insert((posts.last().platform, posts.last().source))
    }
}

/// An author that the store knows is used as it is: the step that follows
/// the lookup asks for no new author and records the one that was found.
pub proof fn lemma_known_author_is_reused(
    state: CreatorSyncView,
    author: u32,
    next: CreatorSyncView,
    action: CreatorAction,
)
    requires
        state.phase is Finding,
        creator_step(state, CreatorEvent::Found(Some(author)), next, action),
    ensures
        !(action is Create),
        next.authors.len() == state.authors.len() + 1,
        next.authors.last().0 == author,
{
}

/// Where the store knows every creator, synchronising them changes nothing.
pub proof fn lemma_known_creators_add_nothing(
    authors: Map<(u32, Seq<char>), u32>,
    platform: u32,
    creators: Seq<Seq<char>>,
    fresh: spec_fn(int) -> u32,
)
    requires
        forall|i: int|
            0 <= i < creators.len() ==> authors.contains_key((platform, #[trigger] creators[i])),
    ensures
        authors_after(authors, platform, creators, fresh) == authors,
    decreases creators.len(),
{
    if creators.len() > 0 {
        let front = creators.drop_last();
        assert forall|i: int| 0 <= i < front.len() implies authors.contains_key(
            (platform, #[trigger] front[i]),
        ) by {
            assert(front[i] == creators[i]);
        }
        lemma_known_creators_add_nothing(authors, platform, front, fresh);
        assert(authors.contains_key((platform, creators[creators.len() - 1])));
    }
}

/// After creators were synchronised the store knows each of them.
pub proof fn lemma_creators_are_known(
    authors: Map<(u32, Seq<char>), u32>,
    platform: u32,
    creators: Seq<Seq<char>>,
    fresh: spec_fn(int) -> u32,
)
    ensures
        forall|i: int|
            0 <= i < creators.len() ==> authors_after(
                authors,
                platform,
                creators,
                fresh,
            ).contains_key((platform, #[trigger] creators[i])),
    decreases creators.len(),
{
    if creators.len() > 0 {
        let front = creators.drop_last();
        let before = authors_after(authors, platform, front, fresh);
        lemma_creators_are_known(authors, platform, front, fresh);
        assert forall|i: int| 0 <= i < creators.len() implies authors_after(
            authors,
            platform,
            creators,
            fresh,
        ).contains_key((platform, #[trigger] creators[i])) by {
            if i < front.len() {
                assert(front[i] == creators[i]);
                assert(before.contains_key((platform, front[i])));
            }
        }
    }
}

/// Where the store knows every post, synchronising them changes nothing.
pub proof fn lemma_known_posts_add_nothing(known: Set<(u32, Seq<char>)>, posts: Seq<PostView>)
    requires
        forall|i: int|
            0 <= i < posts.len() ==> known.contains(
                ((#[trigger] posts[i]).platform, posts[i].source),
            ),
    ensures
        posts_after(known, posts) == known,
    decreases posts.len(),
{
    if posts.len() > 0 {
        let front = posts.drop_last();
        assert forall|i: int| 0 <= i < front.len() implies known.contains(
            ((#[trigger] front[i]).platform, front[i].source),
        ) by {
            assert(front[i] == posts[i]);
        }
        lemma_known_posts_add_nothing(known, front);
        let last = posts[posts.len() - 1];
        assert(known.contains((last.platform, last.source)));
        assert(known.insert((last.platform, last.source)) =~= known);
    }
}

/// After posts were synchronised the store knows each of them, and what it
/// knew before.
pub proof fn lemma_posts_are_known(known: Set<(u32, Seq<char>)>, posts: Seq<PostView>)
    ensures
        forall|i: int|
            0 <= i < posts.len() ==> posts_after(known, posts).contains(
                ((#[trigger] posts[i]).platform, posts[i].source),
            ),
        forall|key: (u32, Seq<char>)|
            known.contains(key) ==> posts_after(known, posts).contains(key),
    decreases posts.len(),
{
    if posts.len() > 0 {
        let front = posts.drop_last();
        lemma_posts_are_known(known, front);
        assert forall|i: int| 0 <= i < posts.len() implies posts_after(known, posts).contains(
            ((#[trigger] posts[i]).platform, posts[i].source),
        ) by {
            if i < front.len() {
                assert(front[i] == posts[i]);
            }
        }
    }
}

/// A second run over the same creators and posts against the same store
/// leaves the store as the first run left it: no author and no post is
/// added, whatever identifiers the store would hand out.
pub proof fn lemma_second_run_adds_nothing(
    authors: Map<(u32, Seq<char>), u32>,
    known: Set<(u32, Seq<char>)>,
    platform: u32,
    creators: Seq<Seq<char>>,
    posts: Seq<PostView>,
    first: spec_fn(int) -> u32,
    second: spec_fn(int) -> u32,
)
    ensures
        authors_after(authors_after(authors, platform, creators, first), platform, creators, second)
            == authors_after(authors, platform, creators, first),
        posts_after(posts_after(known, posts), posts) == posts_after(known, posts),
{
    lemma_creators_are_known(authors, platform, creators, first);
    lemma_known_creators_add_nothing(
        authors_after(authors, platform, creators, first),
        platform,
        creators,
        second,
    );
    lemma_posts_are_known(known, posts);
    lemma_known_posts_add_nothing(posts_after(known, posts), posts);
}

} // verus!
