use cch23::elves::{count_elves, count_occurrences, ElfCounts};
use cch23::text::{chars_of, to_decimal};

fn chars(s: &str) -> Vec<char> {
    s.chars().collect()
}

#[test]
fn part1_test() {
    let counts = count_elves(
        "The mischievous elf peeked out from behind the toy workshop,
                        and another elf joined in the festive dance.
                        Look, there is also an elf on that shelf!",
    );
    assert_eq!(counts.elf, 4);
}

#[test]
fn day06_part2_test() {
    let counts = count_elves(
        "there is an elf on a shelf on an elf.
                        there is also another shelf in Belfast.",
    );
    assert_eq!(
        counts,
        ElfCounts { elf: 5, elf_on_a_shelf: 1, shelf_with_no_elf: 1 }
    );
}

#[test]
fn belfast_example_on_one_line() {
    let counts =
        count_elves("there is an elf on a shelf on an elf.\nthere is also another shelf in Belfast.");
    assert_eq!(counts, ElfCounts { elf: 5, elf_on_a_shelf: 1, shelf_with_no_elf: 1 });
}

#[test]
fn empty_text_counts_nothing() {
    assert_eq!(count_elves(""), ElfCounts { elf: 0, elf_on_a_shelf: 0, shelf_with_no_elf: 0 });
}

#[test]
fn shelves_without_elves() {
    let counts = count_elves("shelfshelf elf on a shelf");
    assert_eq!(counts, ElfCounts { elf: 4, elf_on_a_shelf: 1, shelf_with_no_elf: 2 });
}

#[test]
fn same_text_same_counts() {
    let text = "elf on a shelf, elf on a shelf";
    assert_eq!(count_elves(text), count_elves(text));
    assert_eq!(count_elves(text), ElfCounts { elf: 4, elf_on_a_shelf: 2, shelf_with_no_elf: 0 });
}

#[test]
fn matches_do_not_overlap() {
    assert_eq!(count_occurrences(&chars("aaaa"), &chars("aa")), 2);
    assert_eq!(count_occurrences(&chars("aaa"), &chars("aa")), 1);
    assert_eq!(count_occurrences(&chars("abab"), &chars("aba")), 1);
    assert_eq!(count_occurrences(&chars("ab"), &chars("abc")), 0);
    assert_eq!(count_occurrences(&chars("ab"), &chars("")), 0);
}

#[test]
fn non_ascii_text_is_counted_by_characters() {
    let counts = count_elves("ÉLF élf elf – elfe");
    assert_eq!(counts.elf, 2);
}

#[test]
fn chars_of_keeps_every_character() {
    assert_eq!(chars_of("añb"), vec!['a', 'ñ', 'b']);
    assert_eq!(chars_of(""), Vec::<char>::new());
}

#[test]
fn decimal_rendering() {
    assert_eq!(to_decimal(0), "0");
    assert_eq!(to_decimal(7), "7");
    assert_eq!(to_decimal(-5), "-5");
    assert_eq!(to_decimal(9001), "9001");
    assert_eq!(to_decimal(i128::MAX), i128::MAX.to_string());
    assert_eq!(to_decimal(i128::MIN), i128::MIN.to_string());
}
