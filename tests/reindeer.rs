use cch23::reindeer::{
    contest, sole_best_index, total_strength, ContestError, ContestSummary, Contestant,
    JudgedField, Reindeer,
};

fn herd(strengths: &[isize]) -> Vec<Reindeer> {
    strengths.iter().map(|&s| Reindeer { strength: s }).collect()
}

#[allow(clippy::too_many_arguments)]
fn contestant(
    name: &str,
    strength: isize,
    speed_rank: i64,
    height: isize,
    antler_width: isize,
    snow_magic_power: isize,
    favorite_food: &str,
    candies_eaten_yesterday: usize,
) -> Contestant {
    Contestant {
        name: name.to_string(),
        strength,
        speed_rank,
        height,
        antler_width,
        snow_magic_power,
        favorite_food: favorite_food.to_string(),
        candies_eaten_yesterday,
    }
}

// Speeds 50.4 and 48.2, written as ranks in tenths.
fn dasher_and_dancer() -> Vec<Contestant> {
    vec![
        contestant("Dasher", 5, 504, 80, 36, 9001, "hay", 2),
        contestant("Dancer", 6, 482, 65, 37, 4004, "grass", 5),
    ]
}

#[test]
fn strength_of_four_reindeer() {
    assert_eq!(total_strength(&herd(&[5, 6, 4, 7])), 22);
}

#[test]
fn strength_of_no_reindeer_is_zero() {
    assert_eq!(total_strength(&herd(&[])), 0);
}

#[test]
fn strength_sum_does_not_wrap() {
    let big = total_strength(&herd(&[isize::MAX, isize::MAX]));
    assert_eq!(big, 2 * (isize::MAX as i128));
    assert_eq!(total_strength(&herd(&[isize::MIN, -1])), isize::MIN as i128 - 1);
    assert_eq!(total_strength(&herd(&[-3, 3, 10])), 10);
}

#[test]
fn day04_part2_test() {
    let summary = contest(&dasher_and_dancer()).unwrap();
    assert_eq!(
        summary,
        ContestSummary {
            fastest: "Speeding past the finish line with a strength of 5 is Dasher".to_string(),
            tallest: "Dasher is standing tall with his 36 cm wide antlers".to_string(),
            magician: "Dasher could blast you away with a snow magic power of 9001".to_string(),
            consumer: "Dancer ate lots of candies, but also some grass".to_string(),
        }
    );
}

#[test]
fn contest_of_one_names_it_everywhere() {
    let summary = contest(&vec![contestant("Comet", -2, -7, 100, -1, 0, "snow", 0)]).unwrap();
    assert_eq!(summary.fastest, "Speeding past the finish line with a strength of -2 is Comet");
    assert_eq!(summary.tallest, "Comet is standing tall with his -1 cm wide antlers");
    assert_eq!(summary.magician, "Comet could blast you away with a snow magic power of 0");
    assert_eq!(summary.consumer, "Comet ate lots of candies, but also some snow");
}

#[test]
fn contest_winners_differ_by_field() {
    let summary = contest(&vec![
        contestant("Dasher", 5, 10, 80, 36, 1, "hay", 2),
        contestant("Dancer", 6, 30, 65, 37, 4004, "grass", 1),
        contestant("Prancer", 7, 20, 90, 38, 3, "moss", 9),
    ])
    .unwrap();
    assert_eq!(summary.fastest, "Speeding past the finish line with a strength of 6 is Dancer");
    assert_eq!(summary.tallest, "Prancer is standing tall with his 38 cm wide antlers");
    assert_eq!(summary.magician, "Dancer could blast you away with a snow magic power of 4004");
    assert_eq!(summary.consumer, "Prancer ate lots of candies, but also some moss");
}

#[test]
fn empty_contest_is_refused() {
    assert_eq!(contest(&vec![]), Err(ContestError::NoContestants));
}

#[test]
fn ties_are_reported_in_judging_order() {
    let mut tied = dasher_and_dancer();
    tied[1].height = 80;
    assert_eq!(contest(&tied), Err(ContestError::Tie(JudgedField::Height)));
    tied[1].speed_rank = 504;
    assert_eq!(contest(&tied), Err(ContestError::Tie(JudgedField::Speed)));
    let mut tied = dasher_and_dancer();
    tied[1].candies_eaten_yesterday = 2;
    assert_eq!(contest(&tied), Err(ContestError::Tie(JudgedField::CandiesEatenYesterday)));
    let mut tied = dasher_and_dancer();
    tied[1].snow_magic_power = 9001;
    assert_eq!(contest(&tied), Err(ContestError::Tie(JudgedField::SnowMagicPower)));
}

#[test]
fn tie_below_the_top_does_not_matter() {
    let summary = contest(&vec![
        contestant("A", 1, 1, 1, 1, 1, "a", 1),
        contestant("B", 2, 1, 1, 2, 1, "b", 1),
        contestant("C", 3, 9, 9, 3, 9, "c", 9),
    ])
    .unwrap();
    assert_eq!(summary.fastest, "Speeding past the finish line with a strength of 3 is C");
}

#[test]
fn sole_best_index_finds_the_unique_maximum() {
    let h = dasher_and_dancer();
    assert_eq!(sole_best_index(&h, JudgedField::Speed), Some(0));
    assert_eq!(sole_best_index(&h, JudgedField::CandiesEatenYesterday), Some(1));
    assert_eq!(sole_best_index(&vec![], JudgedField::Height), None);
}

#[test]
fn same_herd_same_summary() {
    assert_eq!(contest(&dasher_and_dancer()), contest(&dasher_and_dancer()));
    assert_eq!(total_strength(&herd(&[1, 2])), total_strength(&herd(&[1, 2])));
}
