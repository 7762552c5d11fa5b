use waker::parsing::{is_affirmative, parse_integers};

#[test]
fn parse_ints_test() {
    let numvec = vec![10, 20, 30, 2, 4, 1923];
    let numstr = format!("{:?}", numvec);
    let numstr2 = String::from("10kfsa20fav?30!::]2sd4::;sdalkd c           1923"); // Seriously borked input
    let parsed_vec = parse_integers(&numstr);
    let parsed_vec2 = parse_integers(&numstr2);

    assert_eq!(numvec, parsed_vec);
    assert_eq!(numvec, parsed_vec2);

    println!("{:?}", numvec);
    println!("{:?}", parsed_vec);
    println!("{:?}", parsed_vec2);
}

#[test]
fn parse_integers_edges() {
    assert_eq!(Vec::<i32>::new(), parse_integers(&String::from("")));
    assert_eq!(Vec::<i32>::new(), parse_integers(&String::from("no digits here")));
    assert_eq!(vec![7], parse_integers(&String::from("007")));
    assert_eq!(vec![0, 0], parse_integers(&String::from("0 0")));
    assert_eq!(vec![2147483647], parse_integers(&String::from("2147483647")));
}

#[test]
fn affirmative_answers() {
    assert!(is_affirmative("y"));
    assert!(is_affirmative("Y"));
    assert!(is_affirmative("yes"));
    assert!(is_affirmative("YES"));
    assert!(is_affirmative("Yes"));
    assert!(!is_affirmative(""));
    assert!(!is_affirmative("n"));
    assert!(!is_affirmative("no"));
    assert!(!is_affirmative("yess"));
}
