use emotion_lib::bjs_eval::{BJSAbzeichen, BJSEvaluator, FormVars, MandatoryCategory, PointsThreshold};
use emotion_lib::dosb_eval::{DOSBAbzeichen, DOSBEvaluator, MedalThreshold};
use emotion_lib::error::{EvalError, Lookup};
use emotion_lib::interact::{
    check_schueler_id, get_schueler, get_top_versuch_by_kat, get_top_versuch_in_bjs, get_top_versuch_in_dosb,
    kategorie_model2schema, needs_kat,
};
use emotion_lib::model::{self, Attempt, Category};
use emotion_lib::schema::UploadSchueler;
use emotion_lib::search::search_schema::SchuelerResult;
use emotion_lib::search::{search_database, search_database_extesive, StudentError, StudentRecord};
use emotion_lib::upload::{check_upload_schueler, find_birth_year, UploadCheck};
use emotion_lib::arith::square_root;

fn att(category: i64, result: i64) -> Attempt {
    Attempt { category, result }
}

/// A small catalogue for 11 year old boys: sprint 1, jump 4, throw 6, run 14.
fn bjs() -> BJSEvaluator {
    let cat = |id, group_id| MandatoryCategory { age: 11, gender: 'm', category: Category { id, group_id } };
    BJSEvaluator {
        mandatory: vec![cat(1, 1), cat(4, 2), cat(6, 3), cat(14, 4)],
        form_vars: vec![
            FormVars { category: 1, gender: 'm', a: 379000, c: 690, running: true, distance: Some(50) },
            FormVars { category: 4, gender: 'm', a: 115028, c: 219, running: false, distance: None },
            FormVars { category: 6, gender: 'm', a: 280000, c: 1100, running: false, distance: None },
            FormVars { category: 14, gender: 'm', a: 232500, c: 644, running: true, distance: Some(800) },
        ],
        thresholds: vec![PointsThreshold { age: 11, gender: 'm', winner: 675, honor: 850 }],
    }
}

/// The same boys under DOSB, with the standing jump 18 as a second throw-group category.
fn dosb() -> DOSBEvaluator {
    let row = |id, group_id, bronze, silver, gold| MedalThreshold {
        age: 11,
        gender: 'm',
        category: Category { id, group_id },
        gold,
        silver,
        bronze,
    };
    DOSBEvaluator {
        mandatory: vec![
            row(14, 1, 30000, 26000, 22000),
            row(6, 2, 1800, 2200, 2800),
            row(18, 2, 120, 140, 160),
            row(4, 3, 260, 290, 320),
            row(1, 4, 970, 880, 800),
        ],
    }
}

fn full_attempts() -> Vec<Attempt> {
    vec![att(4, 330), att(14, 21500), att(1, 770), att(6, 2500)]
}

#[test]
fn search_scores_every_student_and_isolates_failures() {
    let students = vec![
        StudentRecord { id: 1001, age: 11, gender: 'm', attempts: full_attempts() },
        StudentRecord { id: 1002, age: 40, gender: 'm', attempts: full_attempts() },
        StudentRecord { id: 1003, age: 40, gender: 'w', attempts: vec![] },
    ];
    let r = search_database(&bjs(), &dosb(), &students);
    assert_eq!(r.len(), 3);
    assert_eq!(
        r[0],
        Ok(SchuelerResult {
            id: 1001,
            bjs_punkte: 883,
            bjs_urkunde: BJSAbzeichen::Ehren,
            dosb_punkte: 11,
            dosb_abzeichen: DOSBAbzeichen::Gold,
        })
    );
    assert_eq!(
        r[1],
        Err(StudentError { id: 1002, error: EvalError::NotFound(Lookup::NeededCategories { age: 40, gender: 'm' }) })
    );
    // no attempts: nothing is looked up
    assert_eq!(
        r[2],
        Ok(SchuelerResult {
            id: 1003,
            bjs_punkte: 0,
            bjs_urkunde: BJSAbzeichen::Keine,
            dosb_punkte: 0,
            dosb_abzeichen: DOSBAbzeichen::Keine,
        })
    );
}

#[test]
fn extensive_search_merges_top_attempts() {
    let attempts = vec![att(4, 300), att(18, 150), att(4, 330), att(1, 770)];
    let students = vec![StudentRecord { id: 1001, age: 11, gender: 'm', attempts }];
    let r = search_database_extesive(&bjs(), &dosb(), &students);
    let x = r[0].clone().unwrap();
    assert_eq!(x.id, 1001);
    // DOSB keeps 4, 18 and 1; BJS adds nothing new
    assert_eq!(x.single_results, vec![att(4, 330), att(18, 150), att(1, 770)]);
    assert_eq!(x.bjs_punkte, 304 + 363);
    assert_eq!(x.bjs_urkunde, BJSAbzeichen::Teilnehmer);
}

#[test]
fn student_view_lists_attempts_of_both_schemes() {
    // a BJS-only category (jump 5) appears after DOSB's attempts
    let mut b = bjs();
    b.mandatory.push(MandatoryCategory { age: 11, gender: 'm', category: Category { id: 5, group_id: 2 } });
    b.form_vars.push(FormVars { category: 5, gender: 'm', a: 84100, c: 80, running: false, distance: None });
    let s = StudentRecord { id: 1005, age: 11, gender: 'm', attempts: vec![att(5, 110), att(1, 770)] };
    let x = get_schueler(&b, &dosb(), &s).unwrap();
    assert_eq!(x.single_results, vec![att(1, 770), att(5, 110)]);
    assert_eq!(x.dosb_abzeichen, DOSBAbzeichen::Keine);
}

#[test]
fn top_attempt_of_a_category() {
    let attempts = vec![att(4, 300), att(1, 800), att(4, 330)];
    assert_eq!(get_top_versuch_by_kat(&bjs(), &dosb(), 11, 'm', 4, &attempts), Ok(att(4, 330)));
    // no attempt of category 6, and category 99 is needed by neither scheme
    assert_eq!(
        get_top_versuch_by_kat(&bjs(), &dosb(), 11, 'm', 6, &attempts),
        Err(EvalError::Conflict { category: 6 })
    );
    assert_eq!(
        get_top_versuch_by_kat(&bjs(), &dosb(), 11, 'm', 99, &vec![att(99, 5)]),
        Err(EvalError::Conflict { category: 99 })
    );
}

#[test]
fn scored_top_attempts() {
    let attempts = vec![att(4, 330), att(6, 2500), att(4, 200)];
    assert_eq!(get_top_versuch_in_bjs(&bjs(), 11, 'm', &attempts), Ok(vec![(att(4, 330), 304), (att(6, 2500), 200)]));
    assert_eq!(
        get_top_versuch_in_dosb(&dosb(), 11, 'm', &attempts),
        Ok(vec![(att(4, 330), DOSBAbzeichen::Gold), (att(6, 2500), DOSBAbzeichen::Silver)])
    );
}

#[test]
fn category_needed_per_scheme() {
    let n = needs_kat(&bjs(), &dosb(), 11, 'm', 18).unwrap();
    assert!(n.dosb);
    assert!(!n.bjs);
    let n = needs_kat(&bjs(), &dosb(), 11, 'm', 4).unwrap();
    assert!(n.dosb && n.bjs);
    assert!(needs_kat(&bjs(), &dosb(), 12, 'm', 4).is_err());
}

#[test]
fn student_ids_have_four_digits() {
    assert!(check_schueler_id(&1000));
    assert!(check_schueler_id(&9998));
    assert!(!check_schueler_id(&9999));
    assert!(!check_schueler_id(&999));
    assert!(!check_schueler_id(&-1000));
}

#[test]
fn category_row_to_display() {
    let m = model::Kategorie {
        id: Some(4),
        name: Some("Weitsprung".to_string()),
        einheit: Some("m".to_string()),
        max_vers: Some(3),
        digits_before: Some(1),
        digits_after: Some(2),
    };
    let k = kategorie_model2schema(m);
    assert_eq!(k.id, 4);
    assert_eq!(k.name, "Weitsprung");
    assert!(!k.lauf);
    assert_eq!(k.einheit, 'm');
    assert_eq!(k.max_vers, 3);
    assert_eq!(k.digits_before, 1);
    assert_eq!(k.digits_after, 2);
    assert_eq!(k.kat_group_id, 0);
}

/// 1 January 2025 by the 365-day year count.
const NOW: u64 = 55 * 31_536_000;

fn upload(id: i64, gesch: char, age: Option<i8>, bday: Option<&str>) -> UploadSchueler {
    UploadSchueler { id, gesch, age, bday: bday.map(|b| b.to_string()) }
}

#[test]
fn birth_year_is_first_year_in_text() {
    assert_eq!(find_birth_year("12.05.2014"), Some(2014));
    assert_eq!(find_birth_year("2003/2014"), Some(2003));
    assert_eq!(find_birth_year("1890-1999"), Some(1999));
    assert_eq!(find_birth_year("born 20x4"), None);
    assert_eq!(find_birth_year(""), None);
}

#[test]
fn upload_checks() {
    assert_eq!(check_upload_schueler(&upload(1234, 'm', Some(11), None), NOW), UploadCheck::Valid { age: 11 });
    assert_eq!(check_upload_schueler(&upload(1234, 'w', Some(-1), Some("03.04.2014")), NOW), UploadCheck::Valid { age: 11 });
    assert_eq!(check_upload_schueler(&upload(1234, 'w', None, Some("2022")), NOW), UploadCheck::AgeInvalid);
    assert_eq!(check_upload_schueler(&upload(1234, 'w', None, Some("-1")), NOW), UploadCheck::AgeInvalid);
    assert_eq!(check_upload_schueler(&upload(1234, 'w', None, Some("unknown")), NOW), UploadCheck::AgeInvalid);
    assert_eq!(check_upload_schueler(&upload(1234, 'w', None, None), NOW), UploadCheck::AgeInvalid);
    assert_eq!(check_upload_schueler(&upload(1234, 'w', Some(4), None), NOW), UploadCheck::AgeInvalid);
    assert_eq!(check_upload_schueler(&upload(1234, 'w', Some(25), None), NOW), UploadCheck::AgeInvalid);
    assert_eq!(check_upload_schueler(&upload(1234, 'w', Some(24), None), NOW), UploadCheck::Valid { age: 24 });
    assert_eq!(check_upload_schueler(&upload(999, 'w', Some(12), None), NOW), UploadCheck::IdInvalid);
    assert_eq!(check_upload_schueler(&upload(1234, 'x', Some(12), None), NOW), UploadCheck::GeschInvalid);
    // an age check comes before the id check
    assert_eq!(check_upload_schueler(&upload(999, 'x', Some(3), None), NOW), UploadCheck::AgeInvalid);
}

#[test]
fn integer_square_roots() {
    assert_eq!(square_root(0), 0);
    assert_eq!(square_root(1), 1);
    assert_eq!(square_root(24), 4);
    assert_eq!(square_root(25), 5);
    assert_eq!(square_root(33_000_000_000), 181_659);
}
