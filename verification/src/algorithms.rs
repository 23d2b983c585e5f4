//! Random draws within stated bounds, and sorting numbers and records.

use crate::string_manip::string_of;
use rand::distributions::{Alphanumeric, Distribution, Uniform};
use rand::Rng;
use vstd::prelude::*;

verus! {

/// The length of the random string and of the random password.
pub const PASSWORD_LEN: usize = 30;

/// The characters that a password is made of.
pub open spec fn charset() -> Seq<char> {
    "ABCDEFGHIJKLMNOPQRSTUVWXYZabcdefghijklmnopqrstuvwxyz0123456789)(*&^%$#@!~"@
}

/// Whether `b` is an ASCII letter or digit.
pub open spec fn is_alphanumeric(b: u8) -> bool {
    ||| 0x30 <= b <= 0x39
    ||| 0x41 <= b <= 0x5A
    ||| 0x61 <= b <= 0x7A
}

/// Whether `c` is an ASCII letter or digit.
pub open spec fn is_letter_or_digit(c: char) -> bool {
    c as u32 <= 0x7A && is_alphanumeric(c as u8)
}

/// Whether `throws` is a game of dice that goes on until the first six:
/// every throw shows 1 to 6, and no throw but the last shows a six.
pub open spec fn is_dice_game(throws: Seq<u8>) -> bool {
    &&& forall|i: int| 0 <= i < throws.len() ==> 1 <= #[trigger] throws[i] <= 6
    &&& forall|i: int| 0 <= i < throws.len() - 1 ==> #[trigger] throws[i] != 6
}

/// A point of the plane with integer coordinates.
#[derive(Debug, Clone, Copy, PartialEq, Eq, Structural)]
pub struct Point {
    pub x: i32,
    pub y: i32,
}

/// What one run of the random experiments drew.
#[derive(Debug)]
pub struct Experiments {
    pub n1: u8,
    pub n2: u16,
    /// A number drawn from `0..10`.
    pub below_ten: usize,
    /// The throws of a die, up to and including the first six.
    pub throws: Vec<u8>,
    pub rand_pair: (i32, bool),
    pub rand_point: Point,
    /// Letters and digits.
    pub rand_string: String,
    /// Characters of the password alphabet.
    pub password: String,
}

/// `Rng::gen` of the thread's generator for `u8`: any value.
#[verifier::external_body]
fn random_u8() -> u8 {
    rand::thread_rng().gen()
}

/// `Rng::gen` of the thread's generator for `u16`: any value.
#[verifier::external_body]
fn random_u16() -> u16 {
    rand::thread_rng().gen()
}

/// `Rng::gen` of the thread's generator for `i32`: any value.
#[verifier::external_body]
fn random_i32() -> i32 {
    rand::thread_rng().gen()
}

/// `Rng::gen` of the thread's generator for `bool`: either value.
#[verifier::external_body]
fn random_bool() -> bool {
    rand::thread_rng().gen()
}

/// `Rng::gen_range` of the thread's generator on `low..high`: some value of
/// the range, which must not be empty.
#[verifier::external_body]
fn gen_range(low: usize, high: usize) -> (n: usize)
    requires
        low < high,
    ensures
        low <= n < high,
{
    rand::thread_rng().gen_range(low..high)
}

/// `Distribution::sample` of `Uniform::from(low..high)` with the thread's
/// generator: some value of the range, which must not be empty.
#[verifier::external_body]
fn uniform_sample(low: u8, high: u8) -> (n: u8)
    requires
        low < high,
    ensures
        low <= n < high,
{
    Uniform::from(low..high).sample(&mut rand::thread_rng())
}

/// `Rng::sample` of the thread's generator with `Alphanumeric`: the code of
/// an ASCII letter or digit.
#[verifier::external_body]
fn sample_alphanumeric() -> (b: u8)
    ensures
        is_alphanumeric(b),
{
    rand::thread_rng().sample(&Alphanumeric)
}

/// Throws a die until it shows a six, or until `limit` throws are made.
pub fn roll_until_six(limit: usize) -> (throws: Vec<u8>)
    ensures
        is_dice_game(throws@),
        throws@.len() <= limit,
        throws@.len() < limit ==> throws@.len() > 0 && throws@.last() == 6,
{
    let mut throws: Vec<u8> = Vec::new();
    while throws.len() < limit
        invariant
            throws@.len() <= limit,
            forall|i: int| 0 <= i < throws@.len() ==> 1 <= #[trigger] throws@[i] <= 5,
        decreases limit - throws@.len(),
    {
        let throw = uniform_sample(1, 7);
        throws.push(throw);
        if throw == 6 {
            return throws;
        }
    }
    throws
}

/// A point with both coordinates drawn at random: any point may come.
pub fn random_point() -> Point {
    let rand_x = random_i32();
    let rand_y = random_i32();
    Point::new(rand_x, rand_y)
}

impl Point {
    /// The point at `x` and `y`.
    pub fn new(x: i32, y: i32) -> (point: Self)
        ensures
            point == (Point { x, y }),
    {
        Point { x, y }
    }
}

/// A string of `len` random letters and digits.
pub fn random_string(len: usize) -> (s: String)
    ensures
        s@.len() == len,
        forall|i: int| 0 <= i < len ==> is_letter_or_digit(#[trigger] s@[i]),
{
    let mut chars: Vec<char> = Vec::new();
    while chars.len() < len
        invariant
            chars@.len() <= len,
            forall|i: int| 0 <= i < chars@.len() ==> is_letter_or_digit(#[trigger] chars@[i]),
        decreases len - chars@.len(),
    {
        let b = sample_alphanumeric();
        chars.push(b as char);
    }
    string_of(&chars)
}

/// A password of `len` characters, each drawn from the password alphabet.
pub fn random_password(len: usize) -> (password: String)
    ensures
        password@.len() == len,
        forall|i: int| 0 <= i < len ==> charset().contains(#[trigger] password@[i]),
{
    let alphabet = "ABCDEFGHIJKLMNOPQRSTUVWXYZabcdefghijklmnopqrstuvwxyz0123456789)(*&^%$#@!~";
    proof {
        reveal_strlit("ABCDEFGHIJKLMNOPQRSTUVWXYZabcdefghijklmnopqrstuvwxyz0123456789)(*&^%$#@!~");
    }
    let size = alphabet.unicode_len();
    let mut chars: Vec<char> = Vec::new();
    while chars.len() < len
        invariant
            chars@.len() <= len,
            alphabet@ == charset(),
            size == charset().len(),
            size == 73,
            forall|i: int| 0 <= i < chars@.len() ==> charset().contains(#[trigger] chars@[i]),
        decreases len - chars@.len(),
    {
        let idx = gen_range(0, size);
        let c = alphabet.get_char(idx);
        chars.push(c);
    }
    string_of(&chars)
}

/// One run of the random experiments: two numbers of any value, a number
/// below ten, a game of dice, a pair, a point, a string of 30 ASCII letters
/// and digits and a password of 30 characters of the password alphabet.
pub fn random_experiments() -> (drawn: Experiments)
    ensures
        drawn.below_ten < 10,
        is_dice_game(drawn.throws@),
        drawn.throws@.len() < usize::MAX ==> drawn.throws@.len() > 0 && drawn.throws@.last() == 6,
        drawn.rand_string@.len() == PASSWORD_LEN,
        forall|i: int| 0 <= i < PASSWORD_LEN ==> is_letter_or_digit(#[trigger] drawn.rand_string@[i]),
        drawn.password@.len() == PASSWORD_LEN,
        forall|i: int| 0 <= i < PASSWORD_LEN ==> charset().contains(#[trigger] drawn.password@[i]),
{
    let n1 = random_u8();
    let n2 = random_u16();
    let below_ten = gen_range(0, 10);
    let throws = roll_until_six(usize::MAX);
    let rand_pair = (random_i32(), random_bool());
    let rand_point = random_point();
    let rand_string = random_string(PASSWORD_LEN);
    let password = random_password(PASSWORD_LEN);
    Experiments { n1, n2, below_ten, throws, rand_pair, rand_point, rand_string, password }
}

/// A person by name and age. Persons are ordered by name, and by age where
/// the names are equal.
#[derive(Debug, Ord, PartialOrd, Eq, PartialEq)]
pub struct Person {
    pub name: String,
    pub age: u32,
}

impl Person {
    pub fn new(name: String, age: u32) -> (person: Self)
        ensures
            person.name == name,
            person.age == age,
    {
        Person { name, age }
    }
}

/// Whether `s` is in ascending order.
pub open spec fn ascending(s: Seq<i32>) -> bool {
    forall|i: int, j: int| 0 <= i <= j < s.len() ==> s[i] <= s[j]
}

/// Whether `a` comes before `b`, or equals it, in the order of strings:
/// character by character, a prefix before what continues it.
pub open spec fn text_le(a: Seq<char>, b: Seq<char>) -> bool
    decreases a.len(),
{
    if a.len() == 0 {
        true
    } else if b.len() == 0 {
        false
    } else if a[0] != b[0] {
        (a[0] as u32) < (b[0] as u32)
    } else {
        text_le(a.drop_first(), b.drop_first())
    }
}

/// Name and age of each person of `people`.
pub open spec fn records(people: Seq<Person>) -> Seq<(Seq<char>, u32)> {
    Seq::new(people.len(), |i: int| (people[i].name@, people[i].age))
}

/// Whether `p` comes before `q`, or equals it: by name, then by age.
pub open spec fn record_le(p: (Seq<char>, u32), q: (Seq<char>, u32)) -> bool {
    if p.0 == q.0 {
        p.1 <= q.1
    } else {
        text_le(p.0, q.0)
    }
}

/// Whether `recs` is in ascending order by name and age.
pub open spec fn ascending_records(recs: Seq<(Seq<char>, u32)>) -> bool {
    forall|i: int, j: int| 0 <= i <= j < recs.len() ==> record_le(recs[i], recs[j])
}

/// Whether `recs` is in ascending order by age.
pub open spec fn ascending_ages(recs: Seq<(Seq<char>, u32)>) -> bool {
    forall|i: int, j: int| 0 <= i <= j < recs.len() ==> recs[i].1 <= recs[j].1
}

/// The records of `recs` with the given age, in order.
pub open spec fn of_age(recs: Seq<(Seq<char>, u32)>, age: u32) -> Seq<(Seq<char>, u32)> {
    recs.filter(|r: (Seq<char>, u32)| r.1 == age)
}

/// Whether `after` is `before` sorted by age with equal ages left in their
/// order: the ages ascend, and the persons of each age are the same, in the
/// same order.
pub open spec fn stably_sorted_by_age(
    before: Seq<(Seq<char>, u32)>,
    after: Seq<(Seq<char>, u32)>,
) -> bool {
    &&& ascending_ages(after)
    &&& after.len() == before.len()
    &&& forall|age: u32| #[trigger] of_age(after, age) == of_age(before, age)
}

/// `sort` of a slice of `i32`: the same numbers in ascending order.
#[verifier::external_body]
fn sort_numbers(numbers: &mut Vec<i32>)
    ensures
        ascending(final(numbers)@),
        final(numbers)@.to_multiset() == old(numbers)@.to_multiset(),
{
    numbers.sort();
}

/// `sort` of a slice of `Person`, by the order that `derive` gives the type:
/// the same persons in ascending order by name and, under one name, by age.
#[verifier::external_body]
fn sort_persons(people: &mut Vec<Person>)
    ensures
        ascending_records(records(final(people)@)),
        records(final(people)@).to_multiset() == records(old(people)@).to_multiset(),
{
    people.sort();
}

/// `sort_by_key` of a slice of `Person` with the age as the key: a stable
/// sort by age.
#[verifier::external_body]
fn sort_persons_by_age(people: &mut Vec<Person>)
    ensures
        stably_sorted_by_age(records(old(people)@), records(final(people)@)),
{
    people.sort_by_key(|person| person.age);
}

/// The numbers 1, 4, 5, 10, 2 and 15 in ascending order.
pub fn vector_sort() -> (sorted: Vec<i32>)
    ensures
        ascending(sorted@),
        sorted@.to_multiset() == seq![1i32, 4, 5, 10, 2, 15].to_multiset(),
{
    let mut vec: Vec<i32> = Vec::new();
    vec.push(1);
    vec.push(4);
    vec.push(5);
    vec.push(10);
    vec.push(2);
    vec.push(15);
    proof {
        assert(vec@ =~= seq![1i32, 4, 5, 10, 2, 15]);
    }
    sort_numbers(&mut vec);
    vec
}

/// Zoe, Al and Pam, in the order in which they are listed.
pub open spec fn listed() -> Seq<(Seq<char>, u32)> {
    seq![("zoe"@, 32u32), ("Al"@, 60u32), ("Pam"@, 1u32)]
}

/// Zoe, Al and Pam.
pub fn people() -> (people: Vec<Person>)
    ensures
        records(people@) == listed(),
{
    let mut people: Vec<Person> = Vec::new();
    people.push(Person::new("zoe".to_owned(), 32));
    people.push(Person::new("Al".to_owned(), 60));
    people.push(Person::new("Pam".to_owned(), 1));
    proof {
        assert(records(people@) =~= listed());
    }
    people
}

/// A copy of `people`.
pub fn copy_people(people: &Vec<Person>) -> (copy: Vec<Person>)
    ensures
        records(copy@) == records(people@),
{
    let mut copy: Vec<Person> = Vec::new();
    let mut i: usize = 0;
    while i < people.len()
        invariant
            i <= people.len(),
            copy@.len() == i,
            records(copy@) == records(people@).take(i as int),
        decreases people.len() - i,
    {
        let ghost before = copy@;
        let name = people[i].name.clone();
        let person = Person::new(name, people[i].age);
        copy.push(person);
        proof {
            assert(copy@.last().name@ == people@[i as int].name@);
            assert(forall|k: int|
                0 <= k < i ==> records(before)[k] == records(people@).take(i as int)[k]);
            assert(records(copy@) =~= records(people@).take(i + 1));
        }
        i = i + 1;
    }
    proof {
        assert(records(people@).take(people.len() as int) =~= records(people@));
    }
    copy
}

/// Zoe, Al and Pam sorted by name and age, and that list sorted by age.
pub fn custom_struct_sort() -> (sorted: (Vec<Person>, Vec<Person>))
    ensures
        ascending_records(records(sorted.0@)),
        records(sorted.0@).to_multiset() == listed().to_multiset(),
        stably_sorted_by_age(records(sorted.0@), records(sorted.1@)),
{
    let mut people = people();
    sort_persons(&mut people);
    let by_name = copy_people(&people);
    sort_persons_by_age(&mut people);
    (by_name, people)
}

} // verus!
