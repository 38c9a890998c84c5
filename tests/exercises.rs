use website_checker::exercises::{assign_major, check_guess, clone_and_modify, concat_strings, is_even, process_vector, update_majors, Student};

#[test]
fn guess_comparison() {
    assert_eq!(check_guess(27, 27), 0);
    assert_eq!(check_guess(30, 27), 1);
    assert_eq!(check_guess(20, 27), -1);
}

#[test]
fn evenness() {
    assert!(is_even(2));
    assert!(!is_even(11));
    assert!(is_even(0));
    assert!(is_even(-4));
    assert!(!is_even(-3));
}

#[test]
fn clone_then_append() {
    let s = String::from("Hello, ");
    assert_eq!(clone_and_modify(&s), "Hello, World!");
    assert_eq!(s, "Hello, ");
}

#[test]
fn concatenation() {
    assert_eq!(concat_strings(&"Hello, ".to_string(), &"World!".to_string()), "Hello, World!");
    assert_eq!(concat_strings(&String::new(), &String::new()), "");
}

#[test]
fn majors_are_updated() {
    let mut s = Student { major: "Undeclared Major".to_string() };
    assign_major(&mut s, "Math".to_string());
    assert_eq!(s.major, "Math");
    let students = vec![
        Student { major: "Undeclared Major".to_string() },
        Student { major: "Undeclared Major".to_string() },
        Student { major: "Undeclared Major".to_string() },
    ];
    let updated = update_majors(students);
    assert_eq!(updated.len(), 3);
    assert!(updated.iter().all(|s| s.major == "Computer Science"));
}

#[test]
fn vector_transform() {
    assert_eq!(process_vector(vec![1, 2, 3], |x| x * 2), vec![2, 4, 6]);
    assert_eq!(process_vector(vec![1, 2, 3], |x| if x > 2 { 0 } else { x }), vec![1, 2, 0]);
    assert_eq!(process_vector(vec![], |x| x + 1), Vec::<i32>::new());
}
