//! Deploy cards: the cards along the bottom of the battle screen, each with
//! the avatar of the operator that it deploys.

use vstd::prelude::*;
use crate::best_matcher::{BestMatcher, select};
use crate::error::MatchError;
use crate::image::Image;
use crate::rect::Rect;

verus! {

/// A deploy card: the operator's name, where the avatar stands, and whether
/// the card can be played.
#[derive(Clone, Debug)]
pub struct DeployCard {
    /// The operator's name.
    pub oper_name: String,
    /// Where the avatar stands on the screen.
    pub rect: Rect,
    /// Whether the card can be played.
    pub available: bool,
}

/// A card can be played where the mean brightness of its cost badge lies
/// above this value.
pub const AVAILABLE_ABOVE: u8 = 90;

/// Where the avatar of a card stands, from where its cost badge stands: 55
/// pixels to the left, as far as the screen goes, and 60 pixels down; 80
/// pixels wide and 100 high.
pub open spec fn avatar_rect_of(badge: Rect) -> Rect {
    Rect {
        x: if badge.x < 55 {
            0u32
        } else {
            (badge.x - 55) as u32
        },
        y: if badge.y + 60 > u32::MAX {
            u32::MAX
        } else {
            (badge.y + 60) as u32
        },
        width: 80,
        height: 100,
    }
}

/// Where the avatar of a card stands, from where its cost badge stands.
pub fn avatar_rect(badge: Rect) -> (r: Rect)
    ensures
        r == avatar_rect_of(badge),
{
    Rect { x: badge.x.saturating_sub(55), y: badge.y.saturating_add(60), width: 80, height: 100 }
}

/// Whether a card whose cost badge has the given mean brightness can be
/// played.
pub fn is_available(brightness: u8) -> (r: bool)
    ensures
        r == (brightness > AVAILABLE_ABOVE),
{
    brightness > AVAILABLE_ABOVE
}

/// Reads deploy cards: it knows the avatars of the operators that may be on
/// them.
pub struct DeployAnalyzer {
    use_cache: bool,
    oper_names: Vec<String>,
    matcher: Option<BestMatcher>,
}

/// What a `DeployAnalyzer` holds.
pub struct DeployAnalyzerView {
    /// Whether a cached screenshot is used where there is one.
    pub use_cache: bool,
    /// The name of the operator of each avatar, in the order of the avatars.
    pub oper_names: Seq<Seq<char>>,
    /// The avatars, if any were given.
    pub matcher: Option<BestMatcher>,
}

impl View for DeployAnalyzer {
    type V = DeployAnalyzerView;

    closed spec fn view(&self) -> DeployAnalyzerView {
        DeployAnalyzerView {
            use_cache: self.use_cache,
            oper_names: Seq::new(self.oper_names@.len(), |i: int| self.oper_names@[i]@),
            matcher: self.matcher,
        }
    }
}

impl DeployAnalyzer {
    #[verifier::type_invariant]
    spec fn inv(self) -> bool {
        self.matcher is Some ==> self.matcher->Some_0.images@.len() == self.oper_names@.len()
    }

    /// An analyzer that knows no operator and takes a fresh screenshot.
    pub fn new() -> (r: Self)
        ensures
            r@ == (DeployAnalyzerView {
                use_cache: false,
                oper_names: Seq::<Seq<char>>::empty(),
                matcher: None,
            }),
    {
        let r = Self { use_cache: false, oper_names: Vec::new(), matcher: None };
        assert(r@.oper_names =~= Seq::<Seq<char>>::empty());
        r
    }

    /// The analyzer set to use a cached screenshot.
    pub fn use_cache(self) -> (r: Self)
        ensures
            r@ == (DeployAnalyzerView { use_cache: true, ..self@ }),
    {
        proof {
            use_type_invariant(&self);
        }
        let r = Self { use_cache: true, oper_names: self.oper_names, matcher: self.matcher };
        assert(r@.oper_names =~= self@.oper_names);
        r
    }

    /// Whether a cached screenshot is used where there is one.
    pub fn uses_cache(&self) -> (r: bool)
        ensures
            r == self@.use_cache,
    {
        self.use_cache
    }

    /// The analyzer with the given avatars: `names[i]` is the operator on
    /// `avatars[i]`. The two lists must be of one length.
    pub fn with_opers(self, names: Vec<String>, avatars: Vec<Image>) -> (r: Result<
        Self,
        MatchError,
    >)
        ensures
            r is Ok <==> names@.len() == avatars@.len(),
            r is Err ==> r->Err_0 == MatchError::DimensionMismatch,
            r is Ok ==> r->Ok_0@ == (DeployAnalyzerView {
                use_cache: self@.use_cache,
                oper_names: Seq::new(names@.len(), |i: int| names@[i]@),
                matcher: Some(BestMatcher { images: avatars }),
            }),
    {
        if names.len() != avatars.len() {
            return Err(MatchError::DimensionMismatch);
        }
        let r = Self {
            use_cache: self.use_cache,
            oper_names: names,
            matcher: Some(BestMatcher::new(avatars)),
        };
        Ok(r)
    }

    /// Reads one card: the operator is the one whose avatar matches
    /// `avatar` best, the card stands where its avatar does, and it can be
    /// played where its cost badge is bright. Without avatars to compare
    /// with there are no candidates. Where none of the avatars could be
    /// scored against `avatar`, the first operator is named.
    pub fn deploy_card(&self, badge: Rect, brightness: u8, avatar: &Image) -> (r: Result<
        DeployCard,
        MatchError,
    >)
        ensures
            r is Ok <==> (self@.matcher is Some && self@.oper_names.len() > 0),
            r is Err ==> r->Err_0 == MatchError::NoCandidates,
            r is Ok ==> {
                let best = select(
                    self@.matcher->Some_0.scores(avatar@),
                    self@.oper_names.len() as int,
                );
                &&& r->Ok_0.rect == avatar_rect_of(badge)
                &&& r->Ok_0.available == (brightness > AVAILABLE_ABOVE)
                &&& 0 <= best.index < self@.oper_names.len()
                &&& r->Ok_0.oper_name@ == self@.oper_names[best.index as int]
            },
    {
        proof {
            use_type_invariant(self);
        }
        match &self.matcher {
            Some(matcher) => {
                let candidates: usize = matcher.images.len();
                match matcher.match_with(avatar) {
                    Ok(index) => {
                        proof {
                            crate::best_matcher::lemma_select_index(
                                matcher.scores(avatar@),
                                candidates as int,
                            );
                        }
                        Ok(
                            DeployCard {
                                oper_name: self.oper_names[index].clone(),
                                rect: avatar_rect(badge),
                                available: is_available(brightness),
                            },
                        )
                    },
                    Err(e) => Err(e),
                }
            },
            None => Err(MatchError::NoCandidates),
        }
    }
}

} // verus!
