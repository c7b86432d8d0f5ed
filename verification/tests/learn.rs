use axum_demo::learn::borrowing::{calculate_length, change, get_first_word, no_dangle};
use axum_demo::learn::constants::calculate_at_compile_time;
use axum_demo::learn::enums::find_element;
use axum_demo::learn::functions::{
    add, add_one, apply_operation, divide_with_remainder, expression_function, factorial,
    fibonacci, largest, multiply, square,
};
use axum_demo::learn::ownership::{gives_ownership, takes_and_gives_back};
use axum_demo::learn::structs::{append_decimal, digit_text, Person, Rectangle};

#[test]
fn constants_are_computed() {
    assert_eq!(calculate_at_compile_time(10, 5), 20);
    assert_eq!(calculate_at_compile_time(10, 20), 50);
    assert_eq!(calculate_at_compile_time(-3, -4), -11);
    assert_eq!(calculate_at_compile_time(i32::MAX - 2, 1), i32::MAX);
}

#[test]
fn sums_and_products() {
    assert_eq!(add(5, 3), 8);
    assert_eq!(add(-5, 3), -2);
    assert_eq!(add(i32::MAX, 0), i32::MAX);
    assert_eq!(multiply(4, 7), 28);
    assert_eq!(multiply(-4, 7), -28);
    assert_eq!(multiply(0, i32::MIN), 0);
    assert_eq!(add_one(41), 42);
    assert_eq!(add_one(-1), 0);
    assert_eq!(square(12), 144);
    assert_eq!(square(-12), 144);
    assert_eq!(square(46340), 2147395600);
}

#[test]
fn expression_is_the_result() {
    assert_eq!(expression_function(10), 20);
    assert_eq!(expression_function(0), 0);
    assert_eq!(expression_function(-7), 0);
    assert_eq!(expression_function(1073741823), 2147483646);
    assert_eq!(expression_function(i32::MIN), 0);
}

#[test]
fn division_rounds_towards_zero() {
    assert_eq!(divide_with_remainder(17, 5), (3, 2));
    assert_eq!(divide_with_remainder(-17, 5), (-3, -2));
    assert_eq!(divide_with_remainder(17, -5), (-3, 2));
    assert_eq!(divide_with_remainder(-17, -5), (3, -2));
    assert_eq!(divide_with_remainder(0, 5), (0, 0));
    assert_eq!(divide_with_remainder(4, 5), (0, 4));
    assert_eq!(divide_with_remainder(i32::MIN, 1), (i32::MIN, 0));
    assert_eq!(divide_with_remainder(i32::MAX, -1), (-i32::MAX, 0));
    assert_eq!(divide_with_remainder(i32::MIN, 2), (-1073741824, 0));
}

#[test]
fn operations_are_applied_and_summed() {
    let numbers = vec![1, 2, 3, 4, 5];
    assert_eq!(apply_operation(&numbers, add_one), 20);
    assert_eq!(apply_operation(&numbers, square), 55);
    assert_eq!(apply_operation(&numbers, |x| x * 2), 30);
    assert_eq!(apply_operation(&[], add_one), 0);
    assert_eq!(apply_operation(&[-3], |x| x), -3);
}

#[test]
fn factorials() {
    assert_eq!(factorial(0), 1);
    assert_eq!(factorial(1), 1);
    assert_eq!(factorial(5), 120);
    assert_eq!(factorial(10), 3628800);
    assert_eq!(factorial(20), 2432902008176640000);
}

#[test]
fn fibonacci_numbers() {
    assert_eq!(fibonacci(0), 0);
    assert_eq!(fibonacci(1), 1);
    assert_eq!(fibonacci(2), 1);
    assert_eq!(fibonacci(10), 55);
    assert_eq!(fibonacci(20), 6765);
    assert_eq!(fibonacci(25), 75025);
}

#[test]
fn largest_item_of_a_list() {
    assert_eq!(*largest(&[34, 50, 25, 100, 65]), 100);
    assert_eq!(*largest(&[7]), 7);
    assert_eq!(*largest(&[3, 3, 1]), 3);
    assert_eq!(*largest(&[-5, -2, -9]), -2);
    assert_eq!(*largest(&['y', 'm', 'a', 'q']), 'y');
    assert_eq!(*largest(&["pear", "apple", "zebra"]), "zebra");
    let pair = [(1, "first"), (1, "second")];
    assert_eq!(largest(&pair).1, "second");
    let halves = [1.5, 0.5, 2.5];
    assert_eq!(*largest(&halves), 2.5);
}

#[test]
fn ownership_is_handed_over() {
    assert_eq!(gives_ownership(), "yours");
    assert_eq!(takes_and_gives_back(String::from("test")), "test");
    assert_eq!(takes_and_gives_back(String::new()), "");
}

#[test]
fn borrowed_strings_are_read_and_changed() {
    assert_eq!(calculate_length(&String::from("hello")), 5);
    assert_eq!(calculate_length(&String::new()), 0);
    assert_eq!(calculate_length(&String::from("héllo, 世界")), 14);
    let mut s = String::from("hello");
    change(&mut s);
    assert_eq!(s, "hello, world");
    change(&mut s);
    assert_eq!(s, "hello, world, world");
    assert_eq!(no_dangle(), "hello");
}

#[test]
fn first_word_ends_at_the_first_space() {
    assert_eq!(get_first_word("Hello world from Rust"), "Hello");
    assert_eq!(get_first_word("Hello"), "Hello");
    assert_eq!(get_first_word(""), "");
    assert_eq!(get_first_word(" leading"), "");
    assert_eq!(get_first_word("two  spaces"), "two");
    assert_eq!(get_first_word("世界 你好"), "世界");
    assert_eq!(get_first_word("tab\tis no space"), "tab\tis");
}

#[test]
fn rectangles() {
    let rect = Rectangle::new(30, 50);
    assert_eq!((rect.width, rect.height), (30, 50));
    assert_eq!(rect.area(), 1500);
    assert_eq!(rect.perimeter(), 160);
    assert!(rect.can_hold(&Rectangle::new(10, 40)));
    assert!(!rect.can_hold(&Rectangle::new(60, 45)));
    assert!(!rect.can_hold(&Rectangle::new(30, 50)));
    assert!(!rect.can_hold(&Rectangle::new(29, 50)));
    let mut scaled = Rectangle::new(10, 20);
    scaled.scale(2);
    assert_eq!((scaled.width, scaled.height), (20, 40));
    scaled.scale(0);
    assert_eq!((scaled.width, scaled.height), (0, 0));
    let square = Rectangle::square(25);
    assert_eq!((square.width, square.height), (25, 25));
    assert_eq!(square.area(), 625);
    assert_eq!(square.into_square().side, 25);
    assert_eq!(Rectangle::new(20, 30).into_square().side, 20);
    assert_eq!(Rectangle::new(30, 20).into_square().side, 20);
    assert_eq!(Rectangle::new(65535, 65537).area(), 4294967295);
}

#[test]
fn persons() {
    let person = Person::new("Ada".to_string(), 36);
    assert_eq!(person.name, "Ada");
    assert_eq!(person.age, 36);
    assert!(person.email.is_none());
    assert!(!person.has_email());
    assert_eq!(person.greet(), "Hello, I'm Ada and I'm 36 years old");
    let person = person.with_email("ada@example.com".to_string());
    assert!(person.has_email());
    assert_eq!(person.email.as_deref(), Some("ada@example.com"));
    assert_eq!(person.name, "Ada");
    assert_eq!(person.age, 36);
    assert_eq!(Person::new(String::new(), 0).greet(), "Hello, I'm  and I'm 0 years old");
    assert_eq!(
        Person::new("Old".to_string(), u32::MAX).greet(),
        "Hello, I'm Old and I'm 4294967295 years old"
    );
}

#[test]
fn numbers_as_text() {
    let digits: Vec<&str> = (0..10).map(digit_text).collect();
    assert_eq!(digits, vec!["0", "1", "2", "3", "4", "5", "6", "7", "8", "9"]);
    for n in [0u32, 9, 10, 99, 100, 1024, 4294967295] {
        let mut out = String::from("n=");
        append_decimal(&mut out, n);
        assert_eq!(out, format!("n={}", n));
    }
}

#[test]
fn elements_are_found_at_their_first_place() {
    assert_eq!(find_element(&[1, 3, 5, 7, 9], 5), Some(2));
    assert_eq!(find_element(&[1, 3, 5, 7, 9], 4), None);
    assert_eq!(find_element(&[5, 5, 5], 5), Some(0));
    assert_eq!(find_element(&[], 5), None);
    assert_eq!(find_element(&[1, 2, 3], 3), Some(2));
}
