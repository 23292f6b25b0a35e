use food_journal::date::CivilDate;
use food_journal::error::{ErrorKind, FjError};
use food_journal::record::{decode_user, UserDbRecord};
use food_journal::users::{
    can_rate, register, target_macros, target_macros2, ActivityFactor, FitnessGoal, Gender,
    TargetMacros, UserRequest, UserResponse, UsersApiResponse,
};

const FACTORS: [(ActivityFactor, f64); 5] = [
    (ActivityFactor::Sedentary, 1.2),
    (ActivityFactor::LightActivity, 1.375),
    (ActivityFactor::ModerateActivity, 1.55),
    (ActivityFactor::VeryActive, 1.725),
    (ActivityFactor::ExtraActive, 1.9),
];

const GOALS: [(FitnessGoal, f64); 2] = [(FitnessGoal::LoseWeight, 0.8), (FitnessGoal::Maintain, 1.0)];

fn in_floating_point(height: u64, weight: u64, age: u64, goal: f64, gender: Gender, activity: f64) -> u64 {
    let bmr = (10 * weight) + (height * 25 / 4) - (5 * age);
    let bmr = match gender {
        Gender::Male => bmr.saturating_add(5),
        Gender::Female => bmr.saturating_sub(161),
    };
    (bmr as f64 * activity * goal) as u64
}

fn request() -> UserRequest {
    UserRequest {
        image: "alice.png".to_string(),
        user_name: "alice".to_string(),
        display_name: "Alice".to_string(),
        age: 30,
        gender: Gender::Female,
        goal: FitnessGoal::LoseWeight,
        factor: ActivityFactor::ModerateActivity,
        height: 170,
        weight: 65,
    }
}

#[test]
fn target_macros2_follows_mifflin_and_st_jeor() {
    // 10 * 80 + 180 * 25 / 4 - 5 * 30 = 1775; men add 5; times 1.55.
    assert_eq!(
        target_macros2(180, 80, 30, FitnessGoal::Maintain, Gender::Male, ActivityFactor::ModerateActivity),
        2759
    );
    // 1780 * 1.55 * 0.8 = 2207.2
    assert_eq!(
        target_macros2(180, 80, 30, FitnessGoal::LoseWeight, Gender::Male, ActivityFactor::ModerateActivity),
        2207
    );
    // 10 * 65 + 170 * 25 / 4 - 5 * 30 = 1562; women take off 161; times 1.2.
    assert_eq!(
        target_macros2(170, 65, 30, FitnessGoal::Maintain, Gender::Female, ActivityFactor::Sedentary),
        1681
    );
    assert_eq!(
        target_macros2(170, 65, 30, FitnessGoal::Maintain, Gender::Female, ActivityFactor::LightActivity),
        1926
    );
    assert_eq!(
        target_macros2(170, 65, 30, FitnessGoal::Maintain, Gender::Female, ActivityFactor::VeryActive),
        2416
    );
    assert_eq!(
        target_macros2(170, 65, 30, FitnessGoal::Maintain, Gender::Female, ActivityFactor::ExtraActive),
        2661
    );
}

#[test]
fn target_macros2_rounds_the_height_term_down() {
    // 171 * 25 / 4 = 1068.75, counted as 1068.
    assert_eq!(
        target_macros2(171, 0, 0, FitnessGoal::Maintain, Gender::Male, ActivityFactor::LightActivity),
        1475
    );
}

#[test]
fn target_macros2_keeps_the_rate_of_women_at_zero_or_above() {
    assert_eq!(
        target_macros2(0, 16, 0, FitnessGoal::Maintain, Gender::Female, ActivityFactor::ExtraActive),
        0
    );
    assert_eq!(
        target_macros2(0, 0, 0, FitnessGoal::Maintain, Gender::Female, ActivityFactor::ExtraActive),
        0
    );
    assert_eq!(
        target_macros2(0, 0, 0, FitnessGoal::Maintain, Gender::Male, ActivityFactor::Sedentary),
        6
    );
}

#[test]
fn target_macros2_stays_within_64_bits() {
    let weight = u64::MAX / 10;
    assert!(can_rate(0, weight, 0));
    assert_eq!(
        target_macros2(0, weight, 0, FitnessGoal::Maintain, Gender::Male, ActivityFactor::ExtraActive),
        u64::MAX
    );
    assert_eq!(
        target_macros2(0, weight, 0, FitnessGoal::LoseWeight, Gender::Male, ActivityFactor::Sedentary),
        17708874310761169550
    );
}

#[test]
fn target_macros2_agrees_with_floating_point_on_human_measures() {
    for height in (0..=260u64).step_by(3) {
        for weight in (0..=400u64).step_by(7) {
            for age in (0..=120u64).step_by(5) {
                if !can_rate(height, weight, age) {
                    continue;
                }
                for gender in [Gender::Male, Gender::Female] {
                    for (goal, goal_factor) in GOALS {
                        for (activity, activity_factor) in FACTORS {
                            assert_eq!(
                                target_macros2(height, weight, age, goal, gender, activity),
                                in_floating_point(height, weight, age, goal_factor, gender, activity_factor),
                                "{height} {weight} {age} {gender:?} {goal:?} {activity:?}"
                            );
                        }
                    }
                }
            }
        }
    }
}

#[test]
fn target_macros2_agrees_with_floating_point_on_every_rate_up_to_a_million() {
    // With no height and no age the rate of a man is ten times the weight
    // plus five; rates that are multiples of 25, 40 or 400 make the product
    // a whole number.
    for weight in 0..=100_000u64 {
        for (goal, goal_factor) in GOALS {
            for (activity, activity_factor) in FACTORS {
                assert_eq!(
                    target_macros2(0, weight, 0, goal, Gender::Male, activity),
                    in_floating_point(0, weight, 0, goal_factor, Gender::Male, activity_factor),
                    "{weight} {goal:?} {activity:?}"
                );
            }
        }
    }
}

#[test]
fn can_rate_tells_which_measures_have_a_rate() {
    assert!(can_rate(180, 80, 30));
    assert!(can_rate(0, 0, 0));
    assert!(can_rate(0, 1, 2));
    assert!(!can_rate(0, 1, 3));
    assert!(!can_rate(0, 0, 1));
    assert!(can_rate(4, 0, 5));
    assert!(!can_rate(4, 0, 6));
    assert!(!can_rate(u64::MAX, 0, 0));
    assert!(!can_rate(0, u64::MAX, 0));
    assert!(!can_rate(0, 0, u64::MAX));
    assert!(can_rate(u64::MAX / 25, 0, 0));
    assert!(!can_rate(u64::MAX / 25 + 1, 0, 0));
    assert!(!can_rate(u64::MAX / 25, u64::MAX / 10, 0));
}

#[test]
fn target_macros_divides_the_calories() {
    assert_eq!(
        target_macros(2000),
        TargetMacros { target_fat: 250, target_protein: 166, target_carbohydrate: 44 }
    );
    assert_eq!(
        target_macros(0),
        TargetMacros { target_fat: 0, target_protein: 0, target_carbohydrate: 0 }
    );
    assert_eq!(
        target_macros(359),
        TargetMacros { target_fat: 44, target_protein: 29, target_carbohydrate: 7 }
    );
    assert_eq!(
        target_macros(u64::MAX),
        TargetMacros {
            target_fat: 2305843009213693951,
            target_protein: 1537228672809129301,
            target_carbohydrate: 409927646082434480,
        }
    );
}

#[test]
fn into_response_with_username_adds_the_name() {
    let record = UserDbRecord {
        image: "alice.png".to_string(),
        display_name: "Alice".to_string(),
        target_calories: 2000,
        target_fat: 250,
        target_protein: 166,
        target_carbohydrate: 44,
        current_date: CivilDate::new(2024, 3, 1).unwrap(),
    };
    assert_eq!(
        record.into_response_with_username("alice"),
        UserResponse {
            image: "alice.png".to_string(),
            user_name: "alice".to_string(),
            display_name: "Alice".to_string(),
            target_calories: 2000,
            target_fat: 250,
            target_protein: 166,
            target_carbohydrate: 44,
        }
    );
}

#[test]
fn register_makes_the_profile_and_the_response() {
    let today = CivilDate::new(2024, 3, 1).unwrap();
    let registration = register(&request(), today).unwrap();
    // 10 * 65 + 170 * 25 / 4 - 5 * 30 - 161 = 1401; times 1.55 times 0.8 = 1737.24
    let response = UserResponse {
        image: "alice.png".to_string(),
        user_name: "alice".to_string(),
        display_name: "Alice".to_string(),
        target_calories: 1737,
        target_fat: 217,
        target_protein: 144,
        target_carbohydrate: 38,
    };
    assert_eq!(registration.response, response);
    assert_eq!(registration.put.key, "user.alice");
    assert_eq!(
        registration.put.value,
        "{\"image\":\"alice.png\",\"display_name\":\"Alice\",\"target_calories\":1737,\"target_fat\":217,\"target_protein\":144,\"target_carbohydrate\":38,\"current_date\":\"2024-03-01\"}"
    );
    let stored = decode_user(&registration.put.value).unwrap();
    assert_eq!(stored.current_date, today);
    assert_eq!(stored.into_response_with_username("alice"), response);
}

#[test]
fn register_refuses_a_name_with_the_separator() {
    let today = CivilDate::new(2024, 3, 1).unwrap();
    let named = UserRequest { user_name: "alice.smith".to_string(), ..request() };
    assert_eq!(register(&named, today).unwrap_err().kind, ErrorKind::InvalidInput);
}

#[test]
fn register_refuses_measures_without_a_rate() {
    let today = CivilDate::new(2024, 3, 1).unwrap();
    let old = UserRequest { age: 1000, ..request() };
    assert_eq!(register(&old, today).unwrap_err().kind, ErrorKind::InvalidInput);
    let tall = UserRequest { height: u64::MAX, ..request() };
    assert_eq!(register(&tall, today).unwrap_err().kind, ErrorKind::InvalidInput);
}

#[test]
fn the_listing_of_users_leaves_out_rows_that_could_not_be_read() {
    let record = |name: &str| UserDbRecord {
        image: format!("{name}.png"),
        display_name: name.to_uppercase(),
        target_calories: 2000,
        target_fat: 250,
        target_protein: 166,
        target_carbohydrate: 44,
        current_date: CivilDate::new(2024, 3, 1).unwrap(),
    };
    let listing = vec![
        Ok(("alice".to_string(), record("alice"))),
        Err(FjError::new(ErrorKind::CorruptRecord)),
        Ok(("carol".to_string(), record("carol"))),
        Err(FjError::new(ErrorKind::InvalidInput)),
    ];
    let response = UsersApiResponse::from_listing(listing);
    assert_eq!(
        response.users,
        vec![
            record("alice").into_response_with_username("alice"),
            record("carol").into_response_with_username("carol"),
        ]
    );
    assert_eq!(UsersApiResponse::from_listing(vec![]).users, vec![]);
}
