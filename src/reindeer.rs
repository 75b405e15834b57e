//! Reindeer records: the herd's combined strength, and the winners of the
//! candy-eating contest.
use vstd::prelude::*;

use crate::text::{decimal, push_decimal};

verus! {

/// A reindeer as the strength count sees it.
#[derive(Debug, Clone, Copy, PartialEq, Eq, Structural)]
pub struct Reindeer {
    pub strength: isize,
}

/// The sum of the strengths of `herd`.
pub open spec fn strength_sum(herd: Seq<Reindeer>) -> int
    decreases herd.len(),
{
    if herd.len() == 0 {
        0
    } else {
        strength_sum(herd.drop_last()) + herd.last().strength
    }
}

/// The combined strength of the herd; zero for an empty herd. The sum is kept
/// in an `i128`, where it always fits.
pub fn total_strength(herd: &Vec<Reindeer>) -> (r: i128)
    ensures
        r == strength_sum(herd@),
{
    let n = herd.len();
    let mut acc: i128 = 0;
    let mut i: usize = 0;
    while i < n
        invariant
            n == herd@.len(),
            i <= n,
            acc == strength_sum(herd@.take(i as int)),
            -(i as int) * 0x8000_0000_0000_0000 <= acc <= (i as int) * 0x8000_0000_0000_0000,
        decreases n - i,
    {
        assert(herd@.take(i + 1).drop_last() =~= herd@.take(i as int));
        acc = acc + herd[i].strength as i128;
        i = i + 1;
    }
    assert(herd@.take(n as int) =~= herd@);
    acc
}

/// A reindeer entered in the contest.
#[derive(Debug, Clone, PartialEq, Eq)]
pub struct Contestant {
    pub name: String,
    pub strength: isize,
    /// Orders contestants as their speeds do: the faster has the larger rank.
    pub speed_rank: i64,
    pub height: isize,
    pub antler_width: isize,
    pub snow_magic_power: isize,
    pub favorite_food: String,
    pub candies_eaten_yesterday: usize,
}

/// A field on which contestants are judged.
#[derive(Debug, Clone, Copy, PartialEq, Eq, Structural)]
pub enum JudgedField {
    Speed,
    Height,
    SnowMagicPower,
    CandiesEatenYesterday,
}

/// Why a contest has no summary.
#[derive(Debug, Clone, Copy, PartialEq, Eq, Structural)]
pub enum ContestError {
    /// Nobody took part.
    NoContestants,
    /// Two or more contestants share the best score on this field.
    Tie(JudgedField),
}

/// The four sentences that announce the winners.
#[derive(Debug, Clone, PartialEq, Eq)]
pub struct ContestSummary {
    pub fastest: String,
    pub tallest: String,
    pub magician: String,
    pub consumer: String,
}

/// What a contestant scores on a field.
pub open spec fn score(c: Contestant, f: JudgedField) -> int {
    match f {
        JudgedField::Speed => c.speed_rank as int,
        JudgedField::Height => c.height as int,
        JudgedField::SnowMagicPower => c.snow_magic_power as int,
        JudgedField::CandiesEatenYesterday => c.candies_eaten_yesterday as int,
    }
}

/// Contestant `i` scores strictly more on `f` than every other one.
pub open spec fn is_sole_best(herd: Seq<Contestant>, f: JudgedField, i: int) -> bool {
    &&& 0 <= i < herd.len()
    &&& forall|j: int| 0 <= j < herd.len() && j != i ==> #[trigger] score(herd[j], f) < score(herd[i], f)
}

pub open spec fn has_sole_best(herd: Seq<Contestant>, f: JudgedField) -> bool {
    exists|i: int| is_sole_best(herd, f, i)
}

/// The winner on `f`, where there is one.
pub open spec fn sole_best(herd: Seq<Contestant>, f: JudgedField) -> int {
    choose|i: int| is_sole_best(herd, f, i)
}

/// The order in which the fields are judged, and ties reported.
pub open spec fn judging_order(f: JudgedField) -> int {
    match f {
        JudgedField::Speed => 0,
        JudgedField::Height => 1,
        JudgedField::SnowMagicPower => 2,
        JudgedField::CandiesEatenYesterday => 3,
    }
}

pub open spec fn fastest_line(c: Contestant) -> Seq<char> {
    "Speeding past the finish line with a strength of "@ + decimal(c.strength as int) + " is "@
        + c.name@
}

pub open spec fn tallest_line(c: Contestant) -> Seq<char> {
    c.name@ + " is standing tall with his "@ + decimal(c.antler_width as int)
        + " cm wide antlers"@
}

pub open spec fn magician_line(c: Contestant) -> Seq<char> {
    c.name@ + " could blast you away with a snow magic power of "@ + decimal(
        c.snow_magic_power as int,
    )
}

pub open spec fn consumer_line(c: Contestant) -> Seq<char> {
    c.name@ + " ate lots of candies, but also some "@ + c.favorite_food@
}

/// What the contest gives for a herd: an error when it is empty or when some
/// field, taken in judging order, has no single winner; otherwise the four
/// sentences about the winners.
pub open spec fn contest_spec(herd: Seq<Contestant>, r: Result<ContestSummary, ContestError>) -> bool {
    match r {
        Ok(s) => {
            &&& herd.len() > 0
            &&& forall|f: JudgedField| #[trigger] has_sole_best(herd, f)
            &&& s.fastest@ == fastest_line(herd[sole_best(herd, JudgedField::Speed)])
            &&& s.tallest@ == tallest_line(herd[sole_best(herd, JudgedField::Height)])
            &&& s.magician@ == magician_line(herd[sole_best(herd, JudgedField::SnowMagicPower)])
            &&& s.consumer@ == consumer_line(
                herd[sole_best(herd, JudgedField::CandiesEatenYesterday)],
            )
        },
        Err(ContestError::NoContestants) => herd.len() == 0,
        Err(ContestError::Tie(f)) => {
            &&& herd.len() > 0
            &&& !has_sole_best(herd, f)
            &&& forall|g: JudgedField| #[trigger] judging_order(g) < judging_order(f) ==> has_sole_best(herd, g)
        },
    }
}

fn score_of(c: &Contestant, f: JudgedField) -> (r: i128)
    ensures
        r == score(*c, f),
{
    match f {
        JudgedField::Speed => c.speed_rank as i128,
        JudgedField::Height => c.height as i128,
        JudgedField::SnowMagicPower => c.snow_magic_power as i128,
        JudgedField::CandiesEatenYesterday => c.candies_eaten_yesterday as i128,
    }
}

/// The index of the one contestant who scores best on `f`, or `None` when
/// the herd is empty or the best score is shared.
pub fn sole_best_index(herd: &Vec<Contestant>, f: JudgedField) -> (r: Option<usize>)
    ensures
        match r {
            Some(i) => is_sole_best(herd@, f, i as int),
            None => !has_sole_best(herd@, f),
        },
{
    let n = herd.len();
    if n == 0 {
        return None;
    }
    let mut best: usize = 0;
    let mut best_score = score_of(&herd[0], f);
    let mut tied = false;
    let mut i: usize = 1;
    while i < n
        invariant
            n == herd@.len(),
            1 <= i <= n,
            best < i,
            best_score == score(herd@[best as int], f),
            forall|j: int| 0 <= j < i ==> #[trigger] score(herd@[j], f) <= best_score,
            tied == exists|j: int| 0 <= j < i && j != best && #[trigger] score(herd@[j], f) == best_score,
        decreases n - i,
    {
        let s = score_of(&herd[i], f);
        if s > best_score {
            best = i;
            best_score = s;
            tied = false;
        } else if s == best_score {
            tied = true;
        }
        i = i + 1;
    }
    if tied {
        proof {
            let j = choose|j: int| 0 <= j < n && j != best && #[trigger] score(herd@[j], f) == best_score;
            assert forall|k: int| !is_sole_best(herd@, f, k) by {
                if is_sole_best(herd@, f, k) {
                    if k == best {
                        assert(score(herd@[j], f) < score(herd@[k], f));
                    } else {
                        assert(score(herd@[best as int], f) < score(herd@[k], f));
                    }
                }
            }
        }
        None
    } else {
        Some(best)
    }
}

fn fastest_sentence(c: &Contestant) -> (r: String)
    ensures
        r@ == fastest_line(*c),
{
    let mut s = String::new();
    s.append("Speeding past the finish line with a strength of ");
    push_decimal(&mut s, c.strength as i128);
    s.append(" is ");
    s.append(c.name.as_str());
    s
}

fn tallest_sentence(c: &Contestant) -> (r: String)
    ensures
        r@ == tallest_line(*c),
{
    let mut s = String::new();
    s.append(c.name.as_str());
    s.append(" is standing tall with his ");
    push_decimal(&mut s, c.antler_width as i128);
    s.append(" cm wide antlers");
    s
}

fn magician_sentence(c: &Contestant) -> (r: String)
    ensures
        r@ == magician_line(*c),
{
    let mut s = String::new();
    s.append(c.name.as_str());
    s.append(" could blast you away with a snow magic power of ");
    push_decimal(&mut s, c.snow_magic_power as i128);
    s
}

fn consumer_sentence(c: &Contestant) -> (r: String)
    ensures
        r@ == consumer_line(*c),
{
    let mut s = String::new();
    s.append(c.name.as_str());
    s.append(" ate lots of candies, but also some ");
    s.append(c.favorite_food.as_str());
    s
}

/// Finds the fastest, the tallest, the strongest magician and the greatest
/// eater of candies, and announces each in a sentence.
pub fn contest(herd: &Vec<Contestant>) -> (r: Result<ContestSummary, ContestError>)
    ensures
        contest_spec(herd@, r),
{
    if herd.len() == 0 {
        return Err(ContestError::NoContestants);
    }
    let fastest = match sole_best_index(herd, JudgedField::Speed) {
        Some(i) => i,
        None => {
            return Err(ContestError::Tie(JudgedField::Speed));
        },
    };
    let tallest = match sole_best_index(herd, JudgedField::Height) {
        Some(i) => i,
        None => {
            return Err(ContestError::Tie(JudgedField::Height));
        },
    };
    let magician = match sole_best_index(herd, JudgedField::SnowMagicPower) {
        Some(i) => i,
        None => {
            return Err(ContestError::Tie(JudgedField::SnowMagicPower));
        },
    };
    let consumer = match sole_best_index(herd, JudgedField::CandiesEatenYesterday) {
        Some(i) => i,
        None => {
            return Err(ContestError::Tie(JudgedField::CandiesEatenYesterday));
        },
    };
    proof {
        lemma_sole_best_unique(herd@, JudgedField::Speed, fastest as int);
        lemma_sole_best_unique(herd@, JudgedField::Height, tallest as int);
        lemma_sole_best_unique(herd@, JudgedField::SnowMagicPower, magician as int);
        lemma_sole_best_unique(herd@, JudgedField::CandiesEatenYesterday, consumer as int);
        assert forall|f: JudgedField| #[trigger] has_sole_best(herd@, f) by {
            match f {
                JudgedField::Speed => assert(is_sole_best(herd@, f, fastest as int)),
                JudgedField::Height => assert(is_sole_best(herd@, f, tallest as int)),
                JudgedField::SnowMagicPower => assert(is_sole_best(herd@, f, magician as int)),
                JudgedField::CandiesEatenYesterday => assert(is_sole_best(herd@, f, consumer as int)),
            }
        }
    }
    Ok(
        ContestSummary {
            fastest: fastest_sentence(&herd[fastest]),
            tallest: tallest_sentence(&herd[tallest]),
            magician: magician_sentence(&herd[magician]),
            consumer: consumer_sentence(&herd[consumer]),
        },
    )
}

/// A field has at most one sole winner, so the one found is the one named.
proof fn lemma_sole_best_unique(herd: Seq<Contestant>, f: JudgedField, i: int)
    requires
        is_sole_best(herd, f, i),
    ensures
        has_sole_best(herd, f),
        sole_best(herd, f) == i,
{
    let k = sole_best(herd, f);
    if k != i {
        assert(score(herd[k], f) < score(herd[i], f));
        assert(score(herd[i], f) < score(herd[k], f));
    }
}

} // verus!
