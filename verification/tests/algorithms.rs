use cookbook::algorithms::{
    copy_people, custom_struct_sort, people, random_experiments, random_password, random_point,
    random_string, roll_until_six, vector_sort, Person, Point, PASSWORD_LEN,
};

const CHARSET: &str = "ABCDEFGHIJKLMNOPQRSTUVWXYZabcdefghijklmnopqrstuvwxyz0123456789)(*&^%$#@!~";

#[test]
fn test_main_rng() {
    random_experiments();
    vector_sort();
    custom_struct_sort();
}

#[test]
fn experiments_stay_within_their_bounds() {
    for _ in 0..50 {
        let drawn = random_experiments();
        assert!(drawn.below_ten < 10);
        assert_eq!(drawn.throws.last(), Some(&6));
        assert!(drawn.throws.iter().all(|t| (1..=6).contains(t)));
        assert_eq!(drawn.throws.iter().filter(|t| **t == 6).count(), 1);
        assert_eq!(drawn.rand_string.chars().count(), 30);
        assert!(drawn.rand_string.chars().all(|c| c.is_ascii_alphanumeric()));
        assert_eq!(drawn.password.chars().count(), 30);
        assert!(drawn.password.chars().all(|c| CHARSET.contains(c)));
    }
}

#[test]
fn dice_game_respects_its_limit() {
    assert!(roll_until_six(0).is_empty());
    for _ in 0..200 {
        let throws = roll_until_six(3);
        assert!(!throws.is_empty() && throws.len() <= 3);
        assert!(throws.iter().all(|t| (1..=6).contains(t)));
        assert!(throws[..throws.len() - 1].iter().all(|t| *t != 6));
        if throws.len() < 3 {
            assert_eq!(throws[throws.len() - 1], 6);
        }
    }
}

#[test]
fn random_texts_have_the_asked_length() {
    assert_eq!(random_string(0), "");
    assert_eq!(random_password(0), "");
    assert_eq!(random_string(PASSWORD_LEN).len(), 30);
    let password = random_password(200);
    assert_eq!(password.len(), 200);
    assert!(password.chars().all(|c| CHARSET.contains(c)));
    assert_ne!(random_string(64), random_string(64));
    let a = random_point();
    let b = random_point();
    let c = random_point();
    assert!(a != b || b != c);
}

#[test]
fn vector_sort_gives_the_numbers_in_order() {
    assert_eq!(vector_sort(), vec![1, 2, 4, 5, 10, 15]);
}

#[test]
fn people_sort_by_name_and_then_by_age() {
    let (by_name, by_age) = custom_struct_sort();
    assert_eq!(
        by_name,
        vec![
            Person::new("Al".to_string(), 60),
            Person::new("Pam".to_string(), 1),
            Person::new("zoe".to_string(), 32),
        ]
    );
    assert_eq!(
        by_age,
        vec![
            Person::new("Pam".to_string(), 1),
            Person::new("zoe".to_string(), 32),
            Person::new("Al".to_string(), 60),
        ]
    );
}

#[test]
fn people_are_listed_as_given() {
    let listed = people();
    assert_eq!(listed.len(), 3);
    assert_eq!(listed[0], Person::new("zoe".to_string(), 32));
    assert_eq!(listed[1].name, "Al");
    assert_eq!(listed[2].age, 1);
    assert_eq!(copy_people(&listed), listed);
}

#[test]
fn a_point_holds_its_coordinates() {
    let p = Point::new(3, -4);
    assert_eq!((p.x, p.y), (3, -4));
    assert_eq!(Point::new(i32::MIN, i32::MAX), Point { x: i32::MIN, y: i32::MAX });
}
