use emotion_lib::bjs_eval::{BJSAbzeichen, BJSEvaluator, FormVars, MandatoryCategory, PointsThreshold};
use emotion_lib::dosb_eval::{DOSBAbzeichen, DOSBEvaluator, MedalThreshold};
use emotion_lib::error::{EvalError, Fault, Lookup};
use emotion_lib::model::{Attempt, Category};

// Category ids of the sample tables.
const SPRINT_50M: i64 = 1;
const LONG_JUMP: i64 = 4;
const HIGH_JUMP: i64 = 5;
const BALL_80G: i64 = 6;
const RUN_800M: i64 = 14;
const STANDING_JUMP: i64 = 18;

fn att(category: i64, result: i64) -> Attempt {
    Attempt { category, result }
}

fn mand(age: i64, gender: char, id: i64, group_id: i64) -> MandatoryCategory {
    MandatoryCategory { age, gender, category: Category { id, group_id } }
}

fn field(category: i64, gender: char, a: i64, c: i64) -> FormVars {
    FormVars { category, gender, a, c, running: false, distance: None }
}

fn run(category: i64, gender: char, a: i64, c: i64, distance: i64) -> FormVars {
    FormVars { category, gender, a, c, running: true, distance: Some(distance) }
}

/// BJS tables: groups are sprint (1), jump (2), throw (3) and endurance (4).
fn bjs() -> BJSEvaluator {
    let mut mandatory = vec![];
    for (age, gender) in [(11, 'm'), (13, 'w')] {
        mandatory.push(mand(age, gender, SPRINT_50M, 1));
        mandatory.push(mand(age, gender, LONG_JUMP, 2));
        mandatory.push(mand(age, gender, HIGH_JUMP, 2));
        mandatory.push(mand(age, gender, BALL_80G, 3));
        mandatory.push(mand(age, gender, RUN_800M, 4));
    }
    // age 12 has mandatory categories but no point thresholds
    mandatory.push(mand(12, 'm', SPRINT_50M, 1));
    mandatory.push(mand(12, 'm', LONG_JUMP, 2));
    mandatory.push(mand(12, 'm', BALL_80G, 3));
    mandatory.push(mand(12, 'm', RUN_800M, 4));
    let form_vars = vec![
        run(SPRINT_50M, 'm', 379000, 690, 50),
        field(LONG_JUMP, 'm', 115028, 219),
        field(HIGH_JUMP, 'm', 84100, 80),
        field(BALL_80G, 'm', 280000, 1100),
        run(RUN_800M, 'm', 232500, 644, 800),
        run(SPRINT_50M, 'w', 364800, 660, 50),
        field(LONG_JUMP, 'w', 109350, 208),
        field(HIGH_JUMP, 'w', 88070, 68),
        field(BALL_80G, 'w', 202320, 874),
        run(RUN_800M, 'w', 202320, 647, 800),
    ];
    let thresholds = vec![
        PointsThreshold { age: 11, gender: 'm', winner: 675, honor: 850 },
        PointsThreshold { age: 13, gender: 'w', winner: 850, honor: 1050 },
    ];
    BJSEvaluator { mandatory, form_vars, thresholds }
}

fn medal_row(age: i64, gender: char, id: i64, group_id: i64, bronze: i64, silver: i64, gold: i64) -> MedalThreshold {
    MedalThreshold { age, gender, category: Category { id, group_id }, gold, silver, bronze }
}

/// DOSB table: groups are endurance (1), strength (2), coordination (3)
/// and speed (4); thresholds in hundredths.
fn dosb() -> DOSBEvaluator {
    DOSBEvaluator {
        mandatory: vec![
            medal_row(11, 'm', RUN_800M, 1, 30000, 26000, 22000),
            medal_row(11, 'm', BALL_80G, 2, 1800, 2200, 2800),
            medal_row(11, 'm', LONG_JUMP, 3, 260, 290, 320),
            medal_row(11, 'm', SPRINT_50M, 4, 970, 880, 800),
            medal_row(13, 'w', RUN_800M, 1, 29000, 25500, 22500),
            medal_row(13, 'w', BALL_80G, 2, 1400, 1800, 2200),
            medal_row(13, 'w', STANDING_JUMP, 2, 140, 155, 170),
            medal_row(13, 'w', LONG_JUMP, 3, 280, 320, 360),
            medal_row(13, 'w', HIGH_JUMP, 3, 85, 95, 105),
            medal_row(13, 'w', SPRINT_50M, 4, 1000, 920, 840),
        ],
    }
}

fn attempts_5716() -> Vec<Attempt> {
    vec![att(LONG_JUMP, 330), att(RUN_800M, 21500), att(SPRINT_50M, 770), att(BALL_80G, 2500)]
}

fn attempts_5243() -> Vec<Attempt> {
    vec![
        att(LONG_JUMP, 300),
        att(STANDING_JUMP, 180),
        att(RUN_800M, 20900),
        att(SPRINT_50M, 800),
        att(HIGH_JUMP, 110),
        att(BALL_80G, 2500),
    ]
}

fn categories(attempts: &Vec<Attempt>) -> Vec<i64> {
    attempts.iter().map(|a| a.category).collect()
}

#[test]
fn bjs_eval_schueler_5716_2025() {
    let eval = bjs();
    let attempts = attempts_5716();
    let (age, gender) = (11, 'm');
    let missing = eval.get_missing_categorys(age, gender, &categories(&attempts)).unwrap();
    assert_eq!(missing[0].len(), 0);
    assert_eq!(missing[1].len(), 0);
    assert_eq!(missing[2].len(), 0);
    assert_eq!(missing[3].len(), 0);
    assert_eq!(eval.calculate_points(gender, &attempts[0]).unwrap(), 304, "Weitsprung");
    assert_eq!(eval.calculate_points(gender, &attempts[1]).unwrap(), 216, "800m Lauf");
    assert_eq!(eval.calculate_points(gender, &attempts[2]).unwrap(), 363, "50m Lauf");
    assert_eq!(eval.calculate_points(gender, &attempts[3]).unwrap(), 200, "80g Schlagball");
    assert_eq!(eval.get_medal(age, gender, &attempts).unwrap(), BJSAbzeichen::Ehren);
}

#[test]
fn bjs_eval_schueler_5243_2025() {
    let eval = bjs();
    let attempts = attempts_5243();
    let (age, gender) = (13, 'w');
    let missing = eval.get_missing_categorys(age, gender, &categories(&attempts)).unwrap();
    assert_eq!(missing[0].len(), 0);
    assert_eq!(missing[1].len(), 0);
    assert_eq!(missing[2].len(), 0);
    assert_eq!(missing[3].len(), 0);
    assert_eq!(eval.calculate_points(gender, &attempts[0]).unwrap(), 306, "Weitsprung");
    // there is no Standweitsprung in bjs
    assert!(eval.calculate_points(gender, &attempts[1]).is_err(), "Standweitsprung");
    assert_eq!(eval.calculate_points(gender, &attempts[2]).unwrap(), 278, "800m Lauf");
    assert_eq!(eval.calculate_points(gender, &attempts[3]).unwrap(), 366, "50m Lauf");
    assert_eq!(eval.calculate_points(gender, &attempts[4]).unwrap(), 247, "Hochsprung");
    assert_eq!(eval.calculate_points(gender, &attempts[5]).unwrap(), 340, "80g Schlagball");
    assert_eq!(eval.get_medal(age, gender, &attempts).unwrap(), BJSAbzeichen::Sieger);
}

#[test]
fn bjs_eval_category_group_missing() {
    let eval = bjs();
    let attempts = vec![att(RUN_800M, 20900), att(SPRINT_50M, 200)];
    let (age, gender) = (13, 'w');
    let missing = eval.get_missing_categorys(age, gender, &categories(&attempts)).unwrap();
    println!("Missing: {:?}", missing);
    assert_eq!(missing[0].len(), 0);
    assert!(missing[1].len() > 0);
    assert!(missing[2].len() > 0);
    assert_eq!(missing[3].len(), 0);
    assert_eq!(eval.get_medal(age, gender, &attempts).unwrap(), BJSAbzeichen::Teilnehmer);
}

#[test]
fn dosb_eval_schueler_5716_2025() {
    let eval = dosb();
    let attempts = attempts_5716();
    let (age, gender) = (11, 'm');
    let missing = eval.get_missing_categorys(age, gender, &categories(&attempts)).unwrap();
    assert_eq!(missing[0].len(), 0);
    assert_eq!(missing[1].len(), 0);
    assert_eq!(missing[2].len(), 0);
    assert_eq!(missing[3].len(), 0);
    assert_eq!(eval.get_medal_for_attempt(age, gender, &attempts[0]).unwrap(), DOSBAbzeichen::Gold, "Weitsprung");
    assert_eq!(eval.get_medal_for_attempt(age, gender, &attempts[1]).unwrap(), DOSBAbzeichen::Gold, "800m Lauf");
    assert_eq!(eval.get_medal_for_attempt(age, gender, &attempts[2]).unwrap(), DOSBAbzeichen::Gold, "50m Lauf");
    assert_eq!(eval.get_medal_for_attempt(age, gender, &attempts[3]).unwrap(), DOSBAbzeichen::Silver, "80g Schlagball");
    assert_eq!(eval.get_medal(age, gender, &attempts).unwrap(), DOSBAbzeichen::Gold);
}

#[test]
fn dosb_eval_schueler_5243_2025() {
    let eval = dosb();
    let attempts = attempts_5243();
    let (age, gender) = (13, 'w');
    let missing = eval.get_missing_categorys(age, gender, &categories(&attempts)).unwrap();
    assert_eq!(missing[0].len(), 0);
    assert_eq!(missing[1].len(), 0);
    assert_eq!(missing[2].len(), 0);
    assert_eq!(missing[3].len(), 0);
    assert_eq!(eval.get_medal_for_attempt(age, gender, &attempts[0]).unwrap(), DOSBAbzeichen::Bronze, "Weitsprung");
    assert_eq!(eval.get_medal_for_attempt(age, gender, &attempts[1]).unwrap(), DOSBAbzeichen::Gold, "Standweitsprung");
    assert_eq!(eval.get_medal_for_attempt(age, gender, &attempts[2]).unwrap(), DOSBAbzeichen::Gold, "800m Lauf");
    assert_eq!(eval.get_medal_for_attempt(age, gender, &attempts[3]).unwrap(), DOSBAbzeichen::Gold, "50m Lauf");
    assert_eq!(eval.get_medal_for_attempt(age, gender, &attempts[4]).unwrap(), DOSBAbzeichen::Gold, "Hochsprung");
    assert_eq!(eval.get_medal_for_attempt(age, gender, &attempts[5]).unwrap(), DOSBAbzeichen::Gold, "80g Schlagball");
    assert_eq!(eval.get_medal(age, gender, &attempts).unwrap(), DOSBAbzeichen::Gold);
}

#[test]
fn dosb_eval_category_group_missing() {
    let eval = dosb();
    let attempts = vec![att(RUN_800M, 20900), att(SPRINT_50M, 800), att(BALL_80G, 2500)];
    let (age, gender) = (13, 'w');
    let missing = eval.get_missing_categorys(age, gender, &categories(&attempts)).unwrap();
    println!("Missing: {:?}", missing);
    assert_eq!(missing[0].len(), 0);
    assert_eq!(missing[1].len(), 0);
    assert!(missing[2].len() > 0);
    assert_eq!(missing[3].len(), 0);
    assert_eq!(eval.get_medal(age, gender, &attempts).unwrap(), DOSBAbzeichen::Keine);
}

#[test]
fn boys_eleven_scenario_points_and_awards() {
    let attempts = attempts_5716();
    let b = bjs();
    // best three of 363, 304, 200, 216
    assert_eq!(b.calculate_points_sum(11, 'm', &attempts).unwrap(), 883);
    assert_eq!(b.get_medal(11, 'm', &attempts).unwrap(), BJSAbzeichen::Ehren);
    let d = dosb();
    assert_eq!(d.calculate_points(11, 'm', &attempts).unwrap(), 11);
    assert_eq!(d.get_medal(11, 'm', &attempts).unwrap(), DOSBAbzeichen::Gold);
}

#[test]
fn girls_thirteen_two_groups_partial_credit() {
    let attempts = vec![att(RUN_800M, 20900), att(SPRINT_50M, 800)];
    assert_eq!(bjs().get_medal(13, 'w', &attempts).unwrap(), BJSAbzeichen::Teilnehmer);
    assert_eq!(dosb().get_medal(13, 'w', &attempts).unwrap(), DOSBAbzeichen::Keine);
}

#[test]
fn field_points_follow_square_root_formula() {
    let b = bjs();
    // (sqrt(3.00) - 1.09350) / 0.00208 = 306.99
    assert_eq!(b.calculate_points('w', &att(LONG_JUMP, 300)).unwrap(), 306);
    // (sqrt(25.00) - 2.8) / 0.011 = 200 exactly
    assert_eq!(b.calculate_points('m', &att(BALL_80G, 2500)).unwrap(), 200);
    // below `a` the points clamp to 0
    assert_eq!(b.calculate_points('m', &att(LONG_JUMP, 100)).unwrap(), 0);
    // a negative result scores nothing
    assert_eq!(b.calculate_points('m', &att(LONG_JUMP, -5)).unwrap(), 0);
}

fn runs_with_distance(distance: i64) -> BJSEvaluator {
    BJSEvaluator {
        mandatory: vec![mand(11, 'm', 20, 1)],
        form_vars: vec![run(20, 'm', 200000, 500, distance)],
        thresholds: vec![],
    }
}

#[test]
fn running_supplement_by_distance() {
    // 300 m in 45.00 s: 300 / 45.24 -> (6.6313 - 2) / 0.005 = 926.26
    assert_eq!(runs_with_distance(300).calculate_points('m', &att(20, 4500)).unwrap(), 926);
    // 400 m in 70.00 s: 400 / 70.14 -> 740.58
    assert_eq!(runs_with_distance(400).calculate_points('m', &att(20, 7000)).unwrap(), 740);
    // 800 m in 200.00 s: no supplement, 800 / 200 = 4 -> 400
    assert_eq!(runs_with_distance(800).calculate_points('m', &att(20, 20000)).unwrap(), 400);
    // 401 m gets no supplement either: 401 / 100.25 = 4 -> 400
    assert_eq!(runs_with_distance(401).calculate_points('m', &att(20, 10025)).unwrap(), 400);
}

#[test]
fn missing_lists_always_four() {
    let b = bjs();
    let m = b.get_missing_categorys(11, 'm', &vec![]).unwrap();
    assert_eq!(m.len(), 4);
    assert_eq!(m[0], vec![SPRINT_50M]);
    assert_eq!(m[1], vec![LONG_JUMP, HIGH_JUMP]);
    assert_eq!(m[2], vec![BALL_80G]);
    assert_eq!(m[3], vec![RUN_800M]);
    // one jump is enough for the jump group
    let m = b.get_missing_categorys(11, 'm', &vec![HIGH_JUMP, 99]).unwrap();
    assert_eq!(m[1], Vec::<i64>::new());
    assert_eq!(m[0], vec![SPRINT_50M]);
}

#[test]
fn worse_attempt_leaves_point_sum() {
    let b = bjs();
    let mut attempts = attempts_5716();
    let before = b.calculate_points_sum(11, 'm', &attempts).unwrap();
    // a high jump worth fewer points than the long jump
    attempts.push(att(HIGH_JUMP, 100));
    attempts.push(att(LONG_JUMP, 250));
    assert_eq!(b.calculate_points_sum(11, 'm', &attempts).unwrap(), before);
    // a better long jump does count
    attempts.push(att(LONG_JUMP, 400));
    assert!(b.calculate_points_sum(11, 'm', &attempts).unwrap() > before);
}

#[test]
fn dosb_larger_results_never_earn_less() {
    let d = dosb();
    let mut last = 0u8;
    for r in (0..400).step_by(5) {
        let m = d.get_medal_for_attempt(11, 'm', &att(LONG_JUMP, r)).unwrap().value();
        assert!(m >= last);
        last = m;
    }
    assert_eq!(last, 3);
    // tolerance: one hundredth below gold still counts as gold
    assert_eq!(d.get_medal_for_attempt(11, 'm', &att(LONG_JUMP, 319)).unwrap(), DOSBAbzeichen::Gold);
    assert_eq!(d.get_medal_for_attempt(11, 'm', &att(LONG_JUMP, 318)).unwrap(), DOSBAbzeichen::Silver);
    // a run: smaller is better, one hundredth above the threshold still counts
    assert_eq!(d.get_medal_for_attempt(11, 'm', &att(SPRINT_50M, 801)).unwrap(), DOSBAbzeichen::Gold);
    assert_eq!(d.get_medal_for_attempt(11, 'm', &att(SPRINT_50M, 802)).unwrap(), DOSBAbzeichen::Silver);
    assert_eq!(d.get_medal_for_attempt(11, 'm', &att(SPRINT_50M, 972)).unwrap(), DOSBAbzeichen::Keine);
}

#[test]
fn evaluation_repeats_identically() {
    let b = bjs();
    let d = dosb();
    let attempts = attempts_5243();
    assert_eq!(b.calculate_points_sum(13, 'w', &attempts), b.calculate_points_sum(13, 'w', &attempts));
    assert_eq!(b.get_medal(13, 'w', &attempts), b.get_medal(13, 'w', &attempts));
    assert_eq!(b.get_top_attempts(13, 'w', &attempts), b.get_top_attempts(13, 'w', &attempts));
    assert_eq!(d.calculate_points(13, 'w', &attempts), d.calculate_points(13, 'w', &attempts));
    assert_eq!(d.get_medal(13, 'w', &attempts), d.get_medal(13, 'w', &attempts));
    assert_eq!(d.get_top_attempts(13, 'w', &attempts), d.get_top_attempts(13, 'w', &attempts));
}

#[test]
fn unneeded_attempt_changes_nothing() {
    let b = bjs();
    let d = dosb();
    let mut attempts = attempts_5716();
    let sum = b.calculate_points_sum(11, 'm', &attempts).unwrap();
    let medal = b.get_medal(11, 'm', &attempts).unwrap();
    let dosb_sum = d.calculate_points(11, 'm', &attempts).unwrap();
    attempts.push(att(STANDING_JUMP, 900));
    assert_eq!(b.calculate_points_sum(11, 'm', &attempts).unwrap(), sum);
    assert_eq!(b.get_medal(11, 'm', &attempts).unwrap(), medal);
    assert_eq!(d.calculate_points(11, 'm', &attempts).unwrap(), dosb_sum);
}

#[test]
fn bjs_tie_keeps_later_attempt() {
    let b = bjs();
    // both throws score 200 points
    let attempts = vec![att(BALL_80G, 2500), att(BALL_80G, 2501)];
    assert_eq!(b.calculate_points('m', &attempts[0]).unwrap(), 200);
    assert_eq!(b.calculate_points('m', &attempts[1]).unwrap(), 200);
    assert_eq!(b.get_top_attempts(11, 'm', &attempts).unwrap(), vec![att(BALL_80G, 2501)]);
}

#[test]
fn dosb_top_attempt_by_direction() {
    let d = dosb();
    let attempts = vec![att(SPRINT_50M, 850), att(LONG_JUMP, 300), att(SPRINT_50M, 820), att(LONG_JUMP, 280), att(SPRINT_50M, 830)];
    assert_eq!(d.get_top_attempts(11, 'm', &attempts).unwrap(), vec![att(SPRINT_50M, 820), att(LONG_JUMP, 300)]);
}

#[test]
fn top_attempts_filter_and_order() {
    let b = bjs();
    let attempts = vec![att(STANDING_JUMP, 180), att(RUN_800M, 21500), att(LONG_JUMP, 300), att(LONG_JUMP, 330)];
    assert_eq!(b.get_top_attempts(11, 'm', &attempts).unwrap(), vec![att(RUN_800M, 21500), att(LONG_JUMP, 330)]);
}

#[test]
fn no_attempts() {
    let b = bjs();
    let d = dosb();
    assert_eq!(b.get_medal(11, 'm', &vec![]).unwrap(), BJSAbzeichen::Keine);
    assert_eq!(b.calculate_points_sum(11, 'm', &vec![]).unwrap(), 0);
    assert_eq!(d.calculate_points(11, 'm', &vec![]).unwrap(), 0);
    assert_eq!(d.get_medal(11, 'm', &vec![]).unwrap(), DOSBAbzeichen::Keine);
}

#[test]
fn point_sum_drops_lowest_group_even_when_empty() {
    let b = bjs();
    // three groups: nothing is dropped but the empty fourth
    let attempts = vec![att(LONG_JUMP, 330), att(SPRINT_50M, 770), att(BALL_80G, 2500)];
    assert_eq!(b.calculate_points_sum(11, 'm', &attempts).unwrap(), 304 + 363 + 200);
    assert_eq!(b.get_medal(11, 'm', &attempts).unwrap(), BJSAbzeichen::Ehren);
}

#[test]
fn medal_sums_map_to_badges() {
    let d = dosb();
    // all four groups at bronze: 4
    let attempts = vec![att(RUN_800M, 29000), att(BALL_80G, 1800), att(LONG_JUMP, 260), att(SPRINT_50M, 970)];
    assert_eq!(d.calculate_points(11, 'm', &attempts).unwrap(), 4);
    assert_eq!(d.get_medal(11, 'm', &attempts).unwrap(), DOSBAbzeichen::Bronze);
    // all at silver: 8
    let attempts = vec![att(RUN_800M, 26000), att(BALL_80G, 2200), att(LONG_JUMP, 290), att(SPRINT_50M, 880)];
    assert_eq!(d.calculate_points(11, 'm', &attempts).unwrap(), 8);
    assert_eq!(d.get_medal(11, 'm', &attempts).unwrap(), DOSBAbzeichen::Silver);
    // three groups without a medal, one gold: 3
    let attempts = vec![att(RUN_800M, 40000), att(BALL_80G, 100), att(LONG_JUMP, 100), att(SPRINT_50M, 700)];
    assert_eq!(d.calculate_points(11, 'm', &attempts).unwrap(), 3);
    assert_eq!(d.get_medal(11, 'm', &attempts).unwrap(), DOSBAbzeichen::Keine);
}

#[test]
fn medal_values() {
    assert_eq!(DOSBAbzeichen::Keine.value(), 0);
    assert_eq!(DOSBAbzeichen::Bronze.value(), 1);
    assert_eq!(DOSBAbzeichen::Silver.value(), 2);
    assert_eq!(DOSBAbzeichen::Gold.value(), 3);
}

#[test]
fn unknown_age_is_not_found() {
    let b = bjs();
    let d = dosb();
    let nf = EvalError::NotFound(Lookup::NeededCategories { age: 30, gender: 'm' });
    assert_eq!(b.get_needed_categorys(30, 'm'), Err(nf));
    assert_eq!(b.get_medal(30, 'm', &attempts_5716()), Err(nf));
    assert_eq!(d.get_medal(30, 'm', &attempts_5716()), Err(nf));
    assert_eq!(d.get_missing_categorys(30, 'm', &vec![]), Err(nf));
}

#[test]
fn missing_form_vars_is_not_found() {
    assert_eq!(
        bjs().calculate_points('w', &att(STANDING_JUMP, 180)),
        Err(EvalError::NotFound(Lookup::FormVars { category: STANDING_JUMP, gender: 'w' }))
    );
}

#[test]
fn missing_point_thresholds_is_not_found() {
    assert_eq!(
        bjs().get_medal(12, 'm', &attempts_5716()),
        Err(EvalError::NotFound(Lookup::PointThresholds { age: 12, gender: 'm' }))
    );
}

#[test]
fn malformed_rows_are_internal() {
    let mut b = runs_with_distance(50);
    b.form_vars[0].distance = None;
    assert_eq!(
        b.calculate_points('m', &att(20, 800)),
        Err(EvalError::Internal(Fault::MissingDistance { category: 20 }))
    );
    let mut b = runs_with_distance(50);
    b.form_vars[0].c = 0;
    assert_eq!(
        b.calculate_points('m', &att(20, 800)),
        Err(EvalError::Internal(Fault::InvalidDivisor { category: 20 }))
    );
    let b = runs_with_distance(50);
    assert_eq!(
        b.calculate_points('m', &att(20, -24)),
        Err(EvalError::Internal(Fault::InvalidTime { category: 20 }))
    );
    // the error of an attempt stops the point sum
    assert_eq!(
        b.calculate_points_sum(11, 'm', &vec![att(20, 800), att(20, -24)]),
        Err(EvalError::Internal(Fault::InvalidTime { category: 20 }))
    );
}

#[test]
fn missing_medal_thresholds_is_not_found() {
    assert_eq!(
        dosb().get_medal_for_attempt(11, 'm', &att(HIGH_JUMP, 100)),
        Err(EvalError::NotFound(Lookup::MedalThresholds { category: HIGH_JUMP, age: 11, gender: 'm' }))
    );
}

#[test]
fn negative_divisor_is_scored() {
    let mut b = BJSEvaluator {
        mandatory: vec![mand(11, 'm', 30, 2)],
        form_vars: vec![field(30, 'm', 0, -100)],
        thresholds: vec![],
    };
    // (sqrt(1.00) - 0) / -0.001 is negative: 0 points
    assert_eq!(b.calculate_points('m', &att(30, 100)), Ok(0));
    // (sqrt(1.00) - 2) / -0.001 = 1000
    b.form_vars[0].a = 200000;
    assert_eq!(b.calculate_points('m', &att(30, 100)), Ok(1000));
    // (sqrt(2.00) - 2) / -0.001 = 585.79
    assert_eq!(b.calculate_points('m', &att(30, 200)), Ok(585));
}

#[test]
fn negative_time_is_scored() {
    // 50 m in -1.00 s: (50 / -0.76 - 2) / 0.005 is negative: 0 points
    let mut b = runs_with_distance(50);
    assert_eq!(b.calculate_points('m', &att(20, -100)), Ok(0));
    // with c = -0.005: (50 / -0.76 - 2) / -0.005 = 13557.89
    b.form_vars[0].c = -500;
    assert_eq!(b.calculate_points('m', &att(20, -100)), Ok(13557));
    // a positive time with a negative c: (50 / 8.24 - 2) / -0.005 is negative
    assert_eq!(b.calculate_points('m', &att(20, 800)), Ok(0));
}

#[test]
fn dosb_direction_from_own_age_row() {
    // an earlier row of another age orders the long jump the other way
    let mut d = dosb();
    d.mandatory.insert(0, medal_row(12, 'm', LONG_JUMP, 3, 320, 290, 260));
    let attempts = vec![att(LONG_JUMP, 280), att(LONG_JUMP, 300)];
    assert_eq!(d.get_top_attempts(11, 'm', &attempts).unwrap(), vec![att(LONG_JUMP, 300)]);
}

#[test]
fn worse_attempt_inserted_first_leaves_point_sum() {
    let b = bjs();
    let mut attempts = attempts_5716();
    let before = b.calculate_points_sum(11, 'm', &attempts).unwrap();
    attempts.insert(0, att(LONG_JUMP, 250));
    attempts.insert(2, att(STANDING_JUMP, 999));
    assert_eq!(b.calculate_points_sum(11, 'm', &attempts).unwrap(), before);
    assert_eq!(b.get_medal(11, 'm', &attempts).unwrap(), BJSAbzeichen::Ehren);
    assert_eq!(dosb().get_medal(11, 'm', &attempts).unwrap(), DOSBAbzeichen::Gold);
}
