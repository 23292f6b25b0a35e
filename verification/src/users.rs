//! Registration of users and the shapes in which profiles are handed out.

use crate::date::{CivilDate, YearMonthDay};
use crate::error::{ErrorKind, FjError};
use crate::keys::{is_user_id, user_key_text};
use crate::record::{user_record_text, UserDbRecord, UserView};
use crate::store::{put_user, Put};
use vstd::prelude::*;

verus! {

/// How active a user is.
#[derive(Clone, Copy, Debug, PartialEq, Eq, Structural)]
pub enum ActivityFactor {
    Sedentary,
    LightActivity,
    ModerateActivity,
    VeryActive,
    ExtraActive,
}

/// The sex that the basal rate is computed for.
#[derive(Clone, Copy, Debug, PartialEq, Eq, Structural)]
pub enum Gender {
    Male,
    Female,
}

/// What a user is aiming at.
#[derive(Clone, Copy, Debug, PartialEq, Eq, Structural)]
pub enum FitnessGoal {
    LoseWeight,
    Maintain,
}

/// What a user registers with. The height is in centimetres, the weight in
/// kilograms, the age in years.
#[derive(Debug, PartialEq, Eq)]
pub struct UserRequest {
    pub image: String,
    pub user_name: String,
    pub display_name: String,
    pub age: u64,
    pub gender: Gender,
    pub goal: FitnessGoal,
    pub factor: ActivityFactor,
    pub height: u64,
    pub weight: u64,
}

/// A profile as it is handed out: the stored targets together with the name
/// of the user, which the key holds.
#[derive(Debug, PartialEq, Eq)]
pub struct UserResponse {
    pub image: String,
    pub user_name: String,
    pub display_name: String,
    pub target_calories: u64,
    pub target_fat: u64,
    pub target_protein: u64,
    pub target_carbohydrate: u64,
}

/// What a `UserResponse` stands for.
pub struct UserResponseView {
    pub image: Seq<char>,
    pub user_name: Seq<char>,
    pub display_name: Seq<char>,
    pub target_calories: u64,
    pub target_fat: u64,
    pub target_protein: u64,
    pub target_carbohydrate: u64,
}

impl View for UserResponse {
    type V = UserResponseView;

    open spec fn view(&self) -> UserResponseView {
        UserResponseView {
            image: self.image@,
            user_name: self.user_name@,
            display_name: self.display_name@,
            target_calories: self.target_calories,
            target_fat: self.target_fat,
            target_protein: self.target_protein,
            target_carbohydrate: self.target_carbohydrate,
        }
    }
}

/// The listing of all users.
#[derive(Debug, PartialEq, Eq)]
pub struct UsersApiResponse {
    pub users: Vec<UserResponse>,
}

/// The daily targets of the three macronutrients.
#[derive(Clone, Copy, Debug, PartialEq, Eq, Structural)]
pub struct TargetMacros {
    pub target_fat: u64,
    pub target_protein: u64,
    pub target_carbohydrate: u64,
}

/// The profile `u` of the user `user_name` as it is handed out.
pub open spec fn user_response_of(user_name: Seq<char>, u: UserView) -> UserResponseView {
    UserResponseView {
        image: u.image,
        user_name,
        display_name: u.display_name,
        target_calories: u.target_calories,
        target_fat: u.target_fat,
        target_protein: u.target_protein,
        target_carbohydrate: u.target_carbohydrate,
    }
}

impl UserDbRecord {
    /// The profile as it is handed out, under the name of its user.
    pub fn into_response_with_username(self, user_name: &str) -> (r: UserResponse)
        ensures
            r@ == user_response_of(user_name@, self@),
    {
        UserResponse {
            image: self.image,
            user_name: user_name.to_owned(),
            display_name: self.display_name,
            target_calories: self.target_calories,
            target_fat: self.target_fat,
            target_protein: self.target_protein,
            target_carbohydrate: self.target_carbohydrate,
        }
    }
}

/// The responses for the rows of a listing that could be read, in their
/// order.
pub open spec fn readable_users(listing: Seq<Result<(String, UserDbRecord), FjError>>) -> Seq<
    UserResponseView,
>
    decreases listing.len(),
{
    if listing.len() == 0 {
        Seq::empty()
    } else {
        match listing.last() {
            Ok(p) => readable_users(listing.drop_last()).push(user_response_of(p.0@, p.1@)),
            Err(_) => readable_users(listing.drop_last()),
        }
    }
}

/// What a list of responses stands for.
pub open spec fn responses_view(users: Seq<UserResponse>) -> Seq<UserResponseView> {
    users.map_values(|u: UserResponse| u@)
}

impl UsersApiResponse {
    /// The listing of the users whose rows could be read. A row that could
    /// not be read is left out; the others keep their order.
    pub fn from_listing(listing: Vec<Result<(String, UserDbRecord), FjError>>) -> (r:
        UsersApiResponse)
        ensures
            responses_view(r.users@) == readable_users(listing@),
    {
        let mut users: Vec<UserResponse> = Vec::new();
        let ghost all = listing@;
        for row in it: listing.into_iter()
            invariant
                it.seq() == all,
                responses_view(users@) == readable_users(all.take(it.index() as int)),
        {
            proof {
                let done = all.take(it.index() as int);
                let next = all.take(it.index() + 1);
                assert(next.drop_last() == done);
                assert(next.last() == row);
            }
            match row {
                Ok((id, user)) => {
                    let ghost before = responses_view(users@);
                    let response = user.into_response_with_username(id.as_str());
                    users.push(response);
                    assert(responses_view(users@) == before.push(response@));
                },
                Err(_) => {},
            }
        }
        assert(all.take(all.len() as int) == all);
        UsersApiResponse { users }
    }
}

/// Ten times the weight, plus six and a quarter times the height, less five
/// times the age: the rate of Mifflin and St. Jeor before the term of the
/// sex, in whole kilocalories.
pub open spec fn base_rate(height_cm: u64, weight_kg: u64, age: u64) -> int {
    10 * weight_kg + (height_cm * 25) / 4 - 5 * age
}

/// Whether the rate of the three measures can be computed in 64 bits without
/// passing below zero.
pub open spec fn has_base_rate(height_cm: u64, weight_kg: u64, age: u64) -> bool {
    &&& height_cm * 25 <= u64::MAX
    &&& 10 * weight_kg + (height_cm * 25) / 4 <= u64::MAX
    &&& 0 <= base_rate(height_cm, weight_kg, age)
}

/// The basal metabolic rate: the base rate plus 5 for men and less 161 for
/// women, kept within 64 bits.
pub open spec fn basal_rate(height_cm: u64, weight_kg: u64, age: u64, gender: Gender) -> int {
    let base = base_rate(height_cm, weight_kg, age);
    match gender {
        Gender::Male => if base + 5 > u64::MAX {
            u64::MAX as int
        } else {
            base + 5
        },
        Gender::Female => if base < 161 {
            0
        } else {
            base - 161
        },
    }
}

/// The factor of the activity, in thousandths.
pub open spec fn activity_thousandths(factor: ActivityFactor) -> int {
    match factor {
        ActivityFactor::Sedentary => 1200,
        ActivityFactor::LightActivity => 1375,
        ActivityFactor::ModerateActivity => 1550,
        ActivityFactor::VeryActive => 1725,
        ActivityFactor::ExtraActive => 1900,
    }
}

/// The factor of the goal, in tenths.
pub open spec fn goal_tenths(goal: FitnessGoal) -> int {
    match goal {
        FitnessGoal::LoseWeight => 8,
        FitnessGoal::Maintain => 10,
    }
}

/// The daily calories: the basal rate times the factor of the activity times
/// the factor of the goal, rounded down and kept within 64 bits.
pub open spec fn daily_calories(
    height_cm: u64,
    weight_kg: u64,
    age: u64,
    goal: FitnessGoal,
    gender: Gender,
    activity_factor: ActivityFactor,
) -> int {
    let exact = (basal_rate(height_cm, weight_kg, age, gender) * activity_thousandths(
        activity_factor,
    ) * goal_tenths(goal)) / 10000;
    if exact > u64::MAX {
        u64::MAX as int
    } else {
        exact
    }
}

/// Whether the base rate of the three measures can be computed.
pub fn can_rate(height_cm: u64, weight_kg: u64, age: u64) -> (b: bool)
    ensures
        b == has_base_rate(height_cm, weight_kg, age),
{
    let tall = match height_cm.checked_mul(25) {
        Some(n) => n / 4,
        None => { return false; },
    };
    let heavy = match weight_kg.checked_mul(10) {
        Some(n) => n,
        None => { return false; },
    };
    let sum = match heavy.checked_add(tall) {
        Some(n) => n,
        None => { return false; },
    };
    match age.checked_mul(5) {
        Some(n) => n <= sum,
        None => false,
    }
}

/// The daily calories of a user by the rate of Mifflin and St. Jeor, scaled
/// by activity and goal.
pub fn target_macros2(
    height_cm: u64,
    weight_kg: u64,
    age: u64,
    goal: FitnessGoal,
    gender: Gender,
    activity_factor: ActivityFactor,
) -> (calories: u64)
    requires
        has_base_rate(height_cm, weight_kg, age),
    ensures
        calories == daily_calories(height_cm, weight_kg, age, goal, gender, activity_factor),
{
    let bmr: u64 = (10 * weight_kg) + (height_cm * 25 / 4) - (5 * age);
    let bmr: u64 = match gender {
        Gender::Male => bmr.saturating_add(5),
        Gender::Female => bmr.saturating_sub(161),
    };
    let activity: u128 = match activity_factor {
        ActivityFactor::Sedentary => 1200,
        ActivityFactor::LightActivity => 1375,
        ActivityFactor::ModerateActivity => 1550,
        ActivityFactor::VeryActive => 1725,
        ActivityFactor::ExtraActive => 1900,
    };
    let factor: u128 = match goal {
        FitnessGoal::LoseWeight => 8,
        FitnessGoal::Maintain => 10,
    };
    assert(bmr * activity <= 0xffff_ffff_ffff_ffff * 1900) by (nonlinear_arith)
        requires
            bmr <= 0xffff_ffff_ffff_ffff,
            activity <= 1900,
    ;
    let scaled: u128 = bmr as u128 * activity;
    assert(scaled * factor <= 0xffff_ffff_ffff_ffff * 1900 * 10) by (nonlinear_arith)
        requires
            scaled <= 0xffff_ffff_ffff_ffff * 1900,
            factor <= 10,
    ;
    let exact: u128 = scaled * factor / 10000;
    if exact > u64::MAX as u128 {
        u64::MAX
    } else {
        exact as u64
    }
}

/// The targets of the three macronutrients for a day of `target_calories`:
/// an eighth, a twelfth and a forty-fifth of the calories.
pub fn target_macros(target_calories: u64) -> (macros: TargetMacros)
    ensures
        macros.target_fat == target_calories / 8,
        macros.target_protein == target_calories / 12,
        macros.target_carbohydrate == target_calories / 45,
{
    TargetMacros {
        target_fat: target_calories / 8,
        target_protein: target_calories / 12,
        target_carbohydrate: target_calories / 45,
    }
}

/// The profile that a user with the given measures is registered with on
/// the day `today`.
pub open spec fn registered_user(
    image: Seq<char>,
    display_name: Seq<char>,
    height_cm: u64,
    weight_kg: u64,
    age: u64,
    goal: FitnessGoal,
    gender: Gender,
    activity_factor: ActivityFactor,
    today: YearMonthDay,
) -> UserView {
    let calories = daily_calories(height_cm, weight_kg, age, goal, gender, activity_factor) as u64;
    UserView {
        image,
        display_name,
        target_calories: calories,
        target_fat: calories / 8,
        target_protein: calories / 12,
        target_carbohydrate: calories / 45,
        current_date: today,
    }
}

/// What a registration yields: the write that stores the profile, and the
/// profile as it is handed out.
#[derive(Debug, PartialEq, Eq)]
pub struct Registration {
    pub put: Put,
    pub response: UserResponse,
}

/// Registers a user: computes the daily targets from the measures of the
/// request and makes the profile, whose day cursor starts on `today`. A user
/// name that contains the separator is refused, and so are measures whose
/// rate cannot be computed; both with `InvalidInput`.
pub fn register(request: &UserRequest, today: CivilDate) -> (r: Result<Registration, FjError>)
    ensures
        r is Ok <==> is_user_id(request.user_name@) && has_base_rate(
            request.height,
            request.weight,
            request.age,
        ),
        r matches Ok(registration) ==> {
            let user = registered_user(
                request.image@,
                request.display_name@,
                request.height,
                request.weight,
                request.age,
                request.goal,
                request.gender,
                request.factor,
                today@,
            );
            &&& registration.put.key@ == user_key_text(request.user_name@)
            &&& registration.put.value@ == user_record_text(user)
            &&& registration.response@ == user_response_of(request.user_name@, user)
        },
        r matches Err(e) ==> e.kind == ErrorKind::InvalidInput,
{
    if !can_rate(request.height, request.weight, request.age) {
        return Err(FjError::new(ErrorKind::InvalidInput));
    }
    let target_calories = target_macros2(
        request.height,
        request.weight,
        request.age,
        request.goal,
        request.gender,
        request.factor,
    );
    let macros = target_macros(target_calories);
    let record = UserDbRecord {
        image: request.image.clone(),
        display_name: request.display_name.clone(),
        target_calories,
        target_fat: macros.target_fat,
        target_protein: macros.target_protein,
        target_carbohydrate: macros.target_carbohydrate,
        current_date: today,
    };
    let put = match put_user(request.user_name.as_str(), &record) {
        Ok(put) => put,
        Err(e) => { return Err(e); },
    };
    let response = record.into_response_with_username(request.user_name.as_str());
    Ok(Registration { put, response })
}

} // verus!
