use rustbits::fundamentals::{
    calculate_length, change_string, count_down, count_up_to, eg_generics, eg_generics_function,
    eg_generics_struct, heading_message, number_message, number_result, range_until, wrap_in_tuple,
    Directions, NewsArticle, Rectangle, Summary,
};

#[test]
fn number_messages() {
    assert_eq!(number_message(5), "Greater than or equal to 5 and not seven");
    assert_eq!(number_message(4), "Less than 5");
    assert_eq!(number_message(7), "It's seven!");
    assert_eq!(number_result(5), "It's seven!");
    assert_eq!(number_result(-3), "Less than 5");
}

#[test]
fn loops_visit_expected_values() {
    assert_eq!(count_up_to(5), vec![1, 2, 3, 4, 5]);
    assert_eq!(count_down(3), vec![3, 2, 1]);
    assert_eq!(count_down(0), Vec::<u32>::new());
    assert_eq!(range_until(10, 5), vec![0, 1, 2, 3, 4, 5]);
    assert_eq!(range_until(3, 5), vec![0, 1, 2]);
    assert_eq!(range_until(0, 5), Vec::<u32>::new());
}

#[test]
fn count_down_is_count_up_reversed() {
    for n in 1..20u32 {
        let mut up = count_up_to(n);
        up.reverse();
        assert_eq!(count_down(n), up);
    }
}

#[test]
fn rectangle_area() {
    let square = Rectangle { width: 5, height: 5 };
    assert_eq!(square.area(), 25);
    let flat = Rectangle { width: 0, height: 9 };
    assert_eq!(flat.area(), 0);
    let wide = Rectangle { width: 65536, height: 65535 };
    assert_eq!(wide.area(), 4294901760);
}

#[test]
fn headings() {
    assert_eq!(heading_message(Directions::North), "Go North");
    assert_eq!(heading_message(Directions::East), "Go East");
    assert_eq!(heading_message(Directions::West), "Go West");
    assert_eq!(heading_message(Directions::South), "Go South");
}

#[test]
fn article_summary() {
    let article = NewsArticle {
        headline: String::from("Rust is awesome!"),
        author: String::from("experience so far"),
        content: String::from("Rust is a great programming language"),
    };
    assert_eq!(
        article.summarize(),
        "Rust is awesome!, experience so far: Rust is a great programming language"
    );
}

#[test]
fn generics() {
    assert_eq!(wrap_in_tuple(5), (5, 5));
    assert_eq!(wrap_in_tuple("phew"), ("phew", "phew"));
    assert_eq!(wrap_in_tuple(String::from("s")), (String::from("s"), String::from("s")));
    let p = eg_generics_struct();
    assert_eq!((p.x, p.y), (5, 10));
    assert_eq!(eg_generics_function(), ((5, 5), ("phew", "phew")));
    let (q, numbers, words) = eg_generics();
    assert_eq!((q.x, q.y, numbers, words), (5, 10, (5, 5), ("phew", "phew")));
}

#[test]
fn length_and_change() {
    let mut s = String::from("learn Rust");
    assert_eq!(calculate_length(&s), 10);
    change_string(&mut s);
    assert_eq!(s, "learn Rust and practice");
    assert_eq!(calculate_length(&s), 23);
    assert_eq!(calculate_length("héllo"), 6);
}

#[test]
fn change_adds_thirteen_bytes() {
    for start in ["", "abc", "日本"] {
        let mut s = String::from(start);
        let before = calculate_length(&s);
        change_string(&mut s);
        assert_eq!(calculate_length(&s), before + 13);
    }
}
