//! The language walkthrough: control flow, structs, enums, traits,
//! generics and borrowing, each reduced to the values it computes.

use vstd::prelude::*;
use vstd::string::StringExecFns;

verus! {

/// What the first `if` chain of the control-flow walkthrough prints for `n`.
pub open spec fn number_message_text(n: int) -> Seq<char> {
    if n < 5 {
        "Less than 5"@
    } else if n == 7 {
        "It's seven!"@
    } else {
        "Greater than or equal to 5 and not seven"@
    }
}

/// The three-way `if` of the control-flow walkthrough.
pub fn number_message(n: i32) -> (r: &'static str)
    ensures
        r@ == number_message_text(n as int),
{
    if n < 5 {
        "Less than 5"
    } else if n == 7 {
        "It's seven!"
    } else {
        "Greater than or equal to 5 and not seven"
    }
}

/// The `if` expression of the control-flow walkthrough, which yields one of
/// two texts.
pub fn number_result(n: i32) -> (r: &'static str)
    ensures
        n < 5 ==> r@ == "Less than 5"@,
        n >= 5 ==> r@ == "It's seven!"@,
{
    if n < 5 {
        "Less than 5"
    } else {
        "It's seven!"
    }
}

/// The counters a `loop` visits when it counts from 1 and breaks on reaching
/// `limit`.  A `limit` of 0 would never be reached.
pub fn count_up_to(limit: u32) -> (r: Vec<u32>)
    requires
        limit >= 1,
    ensures
        r@ == Seq::new(limit as nat, |i: int| (i + 1) as u32),
{
    let mut r: Vec<u32> = Vec::new();
    let mut counter: u32 = 0;
    loop
        invariant_except_break
            counter < limit,
            r@ == Seq::new(counter as nat, |i: int| (i + 1) as u32),
        ensures
            r@ == Seq::new(limit as nat, |i: int| (i + 1) as u32),
        decreases limit - counter,
    {
        counter = counter + 1;
        r.push(counter);
        assert(r@ =~= Seq::new(counter as nat, |i: int| (i + 1) as u32));
        if counter == limit {
            break;
        }
    }
    r
}

/// The numbers a `while` loop visits when it counts `start` down to 1.
pub fn count_down(start: u32) -> (r: Vec<u32>)
    ensures
        r@ == Seq::new(start as nat, |i: int| (start - i) as u32),
{
    let mut r: Vec<u32> = Vec::new();
    let mut number = start;
    while number != 0
        invariant
            number <= start,
            r@ == Seq::new((start - number) as nat, |i: int| (start - i) as u32),
        decreases number,
    {
        r.push(number);
        number = number - 1;
    }
    r
}

/// The indices a `for` loop over `0..end` visits when it breaks after
/// visiting `stop`.
pub fn range_until(end: u32, stop: u32) -> (r: Vec<u32>)
    ensures
        r@ == Seq::new(if stop < end { stop as nat + 1 } else { end as nat }, |i: int| i as u32),
{
    let mut r: Vec<u32> = Vec::new();
    for i in 0..end
        invariant
            i <= end,
            i <= stop,
            r@ == Seq::new(i as nat, |k: int| k as u32),
    {
        r.push(i);
        if i == stop {
            return r;
        }
    }
    r
}

/// Counting down from `n` visits what counting up to `n` visits, in the
/// opposite order.
pub proof fn lemma_count_down_reverses_count_up(n: u32)
    requires
        n >= 1,
    ensures
        Seq::new(n as nat, |i: int| (n - i) as u32) == Seq::new(n as nat, |i: int| (i + 1) as u32).reverse(),
{
    let up = Seq::new(n as nat, |i: int| (i + 1) as u32);
    assert(Seq::new(n as nat, |i: int| (n - i) as u32) =~= up.reverse());
}

/// A rectangle with whole-number sides.
pub struct Rectangle {
    pub width: u32,
    pub height: u32,
}

impl Rectangle {
    /// The area; the product must fit in a `u32`.
    pub fn area(&self) -> (r: u32)
        requires
            self.width * self.height <= u32::MAX,
        ensures
            r == self.width * self.height,
    {
        self.width * self.height
    }
}

/// The four compass directions.
#[derive(Clone, Copy, Debug, PartialEq, Eq, Structural)]
pub enum Directions {
    North,
    East,
    West,
    South,
}

/// The instruction the enum walkthrough prints for a direction.
pub open spec fn heading_text(d: Directions) -> Seq<char> {
    match d {
        Directions::North => "Go North"@,
        Directions::South => "Go South"@,
        Directions::East => "Go East"@,
        Directions::West => "Go West"@,
    }
}

/// The instruction for a direction.
pub fn heading_message(d: Directions) -> (r: &'static str)
    ensures
        r@ == heading_text(d),
{
    match d {
        Directions::North => "Go North",
        Directions::South => "Go South",
        Directions::East => "Go East",
        Directions::West => "Go West",
    }
}

/// Something that can describe itself in one line.
pub trait Summary {
    /// The line that `summarize` gives.
    spec fn summary_text(&self) -> Seq<char>;

    /// A one-line description.
    fn summarize(&self) -> (r: String)
        ensures
            r@ == self.summary_text(),
    ;
}

/// A news article.
pub struct NewsArticle {
    pub headline: String,
    pub author: String,
    pub content: String,
}

impl Summary for NewsArticle {
    /// `headline, author: content`.
    open spec fn summary_text(&self) -> Seq<char> {
        self.headline@ + ", "@ + self.author@ + ": "@ + self.content@
    }

    fn summarize(&self) -> (r: String) {
        let mut r = self.headline.clone();
        r.append(", ");
        r.append(self.author.as_str());
        r.append(": ");
        r.append(self.content.as_str());
        r
    }
}

/// A point whose two coordinates share a type.
pub struct Point<T> {
    pub x: T,
    pub y: T,
}

/// A pair made of a clone of `item` and `item` itself.
pub fn wrap_in_tuple<T: Clone>(item: T) -> (r: (T, T))
    ensures
        cloned(item, r.0),
        r.1 == item,
{
    (item.clone(), item)
}

/// The integer point of the generics walkthrough.
pub fn eg_generics_struct() -> (r: Point<i32>)
    ensures
        r.x == 5,
        r.y == 10,
{
    Point { x: 5, y: 10 }
}

/// The two pairs of the generics walkthrough: a number and a word, each
/// wrapped in a tuple.
pub fn eg_generics_function() -> (r: ((i32, i32), (&'static str, &'static str)))
    ensures
        r.0 == (5i32, 5i32),
        r.1.0@ == "phew"@,
        r.1.1@ == "phew"@,
{
    let numbers = wrap_in_tuple(5i32);
    let words = wrap_in_tuple("phew");
    (numbers, words)
}

/// Everything the generics walkthrough shows that is not a float: the
/// integer point and the two wrapped pairs.
pub fn eg_generics() -> (r: (Point<i32>, (i32, i32), (&'static str, &'static str)))
    ensures
        r.0.x == 5 && r.0.y == 10,
        r.1 == (5i32, 5i32),
        r.2.0@ == "phew"@ && r.2.1@ == "phew"@,
{
    let point = eg_generics_struct();
    let (numbers, words) = eg_generics_function();
    (point, numbers, words)
}

/// The length of `s` in bytes of its UTF-8 encoding.
pub fn calculate_length(s: &str) -> (r: usize)
    ensures
        r == vstd::utf8::encode_utf8(s@).len() as usize,
{
    s.len()
}

/// Appends ` and practice` to `s`.
pub fn change_string(s: &mut String)
    ensures
        final(s)@ == old(s)@ + " and practice"@,
{
    s.append(" and practice");
}


proof fn lemma_encode_utf8_concat(a: Seq<char>, b: Seq<char>)
    ensures
        vstd::utf8::encode_utf8(a + b) == vstd::utf8::encode_utf8(a) + vstd::utf8::encode_utf8(b),
    decreases a.len(),
{
    if a.len() > 0 {
        assert((a + b).drop_first() =~= a.drop_first() + b);
        lemma_encode_utf8_concat(a.drop_first(), b);
        assert(vstd::utf8::encode_utf8(a + b) =~= vstd::utf8::encode_utf8(a) + vstd::utf8::encode_utf8(b));
    } else {
        assert(a + b =~= b);
        assert(vstd::utf8::encode_utf8(a) =~= Seq::<u8>::empty());
        assert(vstd::utf8::encode_utf8(a) + vstd::utf8::encode_utf8(b) =~= vstd::utf8::encode_utf8(b));
    }
}

/// After `change_string`, `calculate_length` reports 13 bytes more than
/// before: the UTF-8 length of ` and practice`.
pub proof fn lemma_change_string_adds_thirteen_bytes(before: Seq<char>)
    ensures
        vstd::utf8::encode_utf8(before + " and practice"@).len() == vstd::utf8::encode_utf8(before).len() + 13,
{
    let suffix = " and practice"@;
    reveal_strlit(" and practice");
    assert(vstd::utf8::is_ascii_chars(suffix));
    vstd::utf8::is_ascii_chars_encode_utf8(suffix);
    lemma_encode_utf8_concat(before, suffix);
}

/// Below 5 the message is "Less than 5"; "It's seven!" comes for 7 and
/// for no other number; every other number from 5 up gets "Greater than
/// or equal to 5 and not seven".
pub proof fn lemma_number_message_cases(n: int)
    ensures
        n < 5 ==> number_message_text(n) == "Less than 5"@,
        n >= 5 && n != 7 ==> number_message_text(n) == "Greater than or equal to 5 and not seven"@,
        number_message_text(n) == "It's seven!"@ <==> n == 7,
{
    reveal_strlit("Less than 5");
    reveal_strlit("It's seven!");
    reveal_strlit("Greater than or equal to 5 and not seven");
    assert("Less than 5"@[0] != "It's seven!"@[0]);
    assert("Greater than or equal to 5 and not seven"@.len() != "It's seven!"@.len());
}

/// Each direction gets its own instruction, naming that direction.
pub proof fn lemma_heading_names_direction(d: Directions)
    ensures
        d == Directions::North <==> heading_text(d) == "Go North"@,
        d == Directions::East <==> heading_text(d) == "Go East"@,
        d == Directions::West <==> heading_text(d) == "Go West"@,
        d == Directions::South <==> heading_text(d) == "Go South"@,
{
    reveal_strlit("Go North");
    reveal_strlit("Go East");
    reveal_strlit("Go West");
    reveal_strlit("Go South");
    assert("Go North"@[3] != "Go East"@[3]);
    assert("Go North"@[3] != "Go West"@[3]);
    assert("Go North"@[3] != "Go South"@[3]);
    assert("Go East"@[3] != "Go West"@[3]);
    assert("Go East"@[3] != "Go South"@[3]);
    assert("Go West"@[3] != "Go South"@[3]);
}

/// An article's summary is its headline, `, `, its author, `: ` and its
/// whole content, one after the other.
pub proof fn lemma_summary_parts(article: NewsArticle)
    ensures
        ({
            let s = article.summary_text();
            let h = article.headline@.len() as int;
            let a = article.author@.len() as int;
            let c = article.content@.len() as int;
            &&& s.len() == h + a + c + 4
            &&& s.subrange(0, h) == article.headline@
            &&& s.subrange(h, h + 2) == ", "@
            &&& s.subrange(h + 2, h + 2 + a) == article.author@
            &&& s.subrange(h + 2 + a, h + 4 + a) == ": "@
            &&& s.subrange(h + 4 + a, s.len() as int) == article.content@
        }),
{
    reveal_strlit(", ");
    reveal_strlit(": ");
    let s = article.summary_text();
    let h = article.headline@.len() as int;
    let a = article.author@.len() as int;
    assert(s.subrange(0, h) =~= article.headline@);
    assert(s.subrange(h, h + 2) =~= ", "@);
    assert(s.subrange(h + 2, h + 2 + a) =~= article.author@);
    assert(s.subrange(h + 2 + a, h + 4 + a) =~= ": "@);
    assert(s.subrange(h + 4 + a, s.len() as int) =~= article.content@);
}

} // verus!
