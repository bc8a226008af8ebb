use enumerate_split::{enumerate_split, EnumerateSplit};

fn drain<I, T>(mut input: EnumerateSplit<I, T>) -> Vec<(T, (usize, usize))>
where
    I: Iterator<Item = T>,
    T: PartialEq,
{
    let mut out = Vec::new();
    while let Some(pair) = input.next() {
        out.push(pair);
    }
    out
}

#[test]
fn consecutive_split_values_close_blocks_of_one_element() {
    let out = drain(enumerate_split(vec!['X', '|', '|', 'Y'].into_iter(), '|'));
    assert_eq!(
        out,
        vec![('X', (0, 0)), ('|', (0, 1)), ('|', (1, 0)), ('Y', (2, 0))]
    );
}

#[test]
fn text_with_two_newlines_first_eight_outputs() {
    let mut input = enumerate_split("Some \n\nstring with a newline".chars(), '\n');
    let mut first_eight = Vec::new();
    for _ in 0..8 {
        first_eight.push(input.next());
    }
    assert_eq!(
        first_eight,
        vec![
            Some(('S', (0, 0))),
            Some(('o', (0, 1))),
            Some(('m', (0, 2))),
            Some(('e', (0, 3))),
            Some((' ', (0, 4))),
            Some(('\n', (0, 5))),
            Some(('\n', (1, 0))),
            Some(('s', (2, 0))),
        ]
    );
}

#[test]
fn text_with_two_newlines_to_the_end() {
    let out = drain(enumerate_split("Some \n\nstring with a newline".chars(), '\n'));
    assert_eq!(out.len(), 28);
    assert_eq!(out[8], ('t', (2, 1)));
    assert_eq!(out[13], (' ', (2, 6)));
    assert_eq!(out[19], ('a', (2, 12)));
    assert_eq!(out[27], ('e', (2, 20)));
    let third_block: Vec<usize> = out[7..].iter().map(|pair| (pair.1).1).collect();
    assert_eq!(third_block, (0..21).collect::<Vec<usize>>());
}

#[test]
fn empty_input_ends_on_the_first_call() {
    let mut input = enumerate_split("".chars(), '\n');
    assert_eq!(input.next(), None);
    let mut numbers = enumerate_split(Vec::<u32>::new().into_iter(), 0);
    assert_eq!(numbers.next(), None);
}

#[test]
fn split_value_that_never_occurs_gives_one_block() {
    let out = drain(enumerate_split("abcde".chars(), '\n'));
    assert_eq!(
        out,
        vec![
            ('a', (0, 0)),
            ('b', (0, 1)),
            ('c', (0, 2)),
            ('d', (0, 3)),
            ('e', (0, 4)),
        ]
    );
}

#[test]
fn split_value_as_first_element() {
    let out = drain(enumerate_split(vec![0u8, 5, 6].into_iter(), 0u8));
    assert_eq!(out, vec![(0, (0, 0)), (5, (1, 0)), (6, (1, 1))]);
}

#[test]
fn split_value_as_last_element() {
    let out = drain(enumerate_split(vec![5u8, 6, 0].into_iter(), 0u8));
    assert_eq!(out, vec![(5, (0, 0)), (6, (0, 1)), (0, (0, 2))]);
}

#[test]
fn only_split_values() {
    let out = drain(enumerate_split(vec![7i64, 7, 7].into_iter(), 7i64));
    assert_eq!(out, vec![(7, (0, 0)), (7, (1, 0)), (7, (2, 0))]);
}

#[test]
fn single_element_inputs() {
    assert_eq!(
        drain(enumerate_split(vec![1u16].into_iter(), 1u16)),
        vec![(1, (0, 0))]
    );
    assert_eq!(
        drain(enumerate_split(vec![1u16].into_iter(), 2u16)),
        vec![(1, (0, 0))]
    );
}

#[test]
fn words_split_on_a_separator_word() {
    let words = vec!["a", "b", "--", "c", "--", "--", "d", "e"];
    let out = drain(enumerate_split(words.into_iter(), "--"));
    assert_eq!(
        out,
        vec![
            ("a", (0, 0)),
            ("b", (0, 1)),
            ("--", (0, 2)),
            ("c", (1, 0)),
            ("--", (1, 1)),
            ("--", (2, 0)),
            ("d", (3, 0)),
            ("e", (3, 1)),
        ]
    );
}

#[test]
fn owned_strings_as_elements() {
    let lines = vec![String::from("x"), String::new(), String::from("y")];
    let out = drain(enumerate_split(lines.into_iter(), String::new()));
    assert_eq!(
        out,
        vec![
            (String::from("x"), (0, 0)),
            (String::new(), (0, 1)),
            (String::from("y"), (1, 0)),
        ]
    );
}

#[derive(Debug, Clone, Copy)]
struct AnyCase(char);

impl PartialEq for AnyCase {
    fn eq(&self, other: &AnyCase) -> bool {
        self.0.to_ascii_lowercase() == other.0.to_ascii_lowercase()
    }
}

#[test]
fn split_goes_by_the_equality_of_the_element_type() {
    let letters = vec![AnyCase('a'), AnyCase('X'), AnyCase('b'), AnyCase('x'), AnyCase('c')];
    let out = drain(enumerate_split(letters.into_iter(), AnyCase('x')));
    let coordinates: Vec<(usize, usize)> = out.iter().map(|pair| pair.1).collect();
    assert_eq!(coordinates, vec![(0, 0), (0, 1), (1, 0), (1, 1), (2, 0)]);
    let letters_back: Vec<char> = out.iter().map(|pair| (pair.0).0).collect();
    assert_eq!(letters_back, vec!['a', 'X', 'b', 'x', 'c']);
}
