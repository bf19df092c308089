use rbmstable_parser::courses::{lift, unlift};
use rbmstable_parser::{DifficultTableCourse, DifficultTableCourseTrophy};
use serde_json::{Number, Value};

fn course(name: &str) -> DifficultTableCourse {
    DifficultTableCourse {
        name: name.to_string(),
        constraints: vec![String::from("grade_mirror"), String::from("gauge_lr2")],
        trophy: vec![DifficultTableCourseTrophy {
            name: String::from("silvermedal"),
            miss_rate_bits: 5.0f32.to_bits(),
            score_rate_bits: 70.0f32.to_bits(),
        }],
        md5: vec![String::from("aa"), String::from("bb"), String::from("cc"), String::from("dd")],
    }
}

fn names(courses: &[DifficultTableCourse]) -> Vec<String> {
    courses.iter().map(|course| course.name.clone()).collect()
}

fn strings(values: &[String]) -> Value {
    Value::Array(values.iter().map(|value| Value::String(value.clone())).collect())
}

fn rate(bits: u32) -> Value {
    Value::Number(Number::from_f64(f64::from(f32::from_bits(bits))).unwrap())
}

fn encoded(course: &DifficultTableCourse) -> Value {
    let mut object = serde_json::Map::new();
    object.insert(String::from("name"), Value::String(course.name.clone()));
    object.insert(String::from("constraint"), strings(&course.constraints));
    let trophies = course
        .trophy
        .iter()
        .map(|trophy| {
            let mut object = serde_json::Map::new();
            object.insert(String::from("name"), Value::String(trophy.name.clone()));
            object.insert(String::from("missrate"), rate(trophy.miss_rate_bits));
            object.insert(String::from("scorerate"), rate(trophy.score_rate_bits));
            Value::Object(object)
        })
        .collect();
    object.insert(String::from("trophy"), Value::Array(trophies));
    object.insert(String::from("md5"), strings(&course.md5));
    Value::Object(object)
}

#[test]
fn lifting_wraps_the_list_in_one_group() {
    let groups = lift(vec![1, 2, 3]);
    assert_eq!(groups, vec![vec![1, 2, 3]]);
    let groups: Vec<Vec<u8>> = lift(Vec::new());
    assert_eq!(groups, vec![Vec::<u8>::new()]);
}

#[test]
fn unlifting_takes_the_groups_one_after_another() {
    assert_eq!(unlift(vec![vec![1, 2], vec![], vec![3], vec![4, 5, 6]]), vec![1, 2, 3, 4, 5, 6]);
    assert_eq!(unlift(vec![vec!["a", "b"]]), vec!["a", "b"]);
    assert_eq!(unlift(Vec::<Vec<u8>>::new()), Vec::<u8>::new());
    assert_eq!(unlift(vec![Vec::<u8>::new(), Vec::new()]), Vec::<u8>::new());
}

#[test]
fn a_lifted_list_unlifts_to_itself() {
    let flat = vec![course("Satellite sl0"), course("Satellite sl1"), course("Satellite sl2")];
    let again = unlift(lift(flat.clone()));
    assert_eq!(names(&again), names(&flat));
    assert_eq!(again.len(), 3);
    assert_eq!(again[1].md5, flat[1].md5);
    assert_eq!(again[2].trophy[0].miss_rate_bits, 5.0f32.to_bits());
}

#[test]
fn courses_go_to_the_wire_as_a_list_of_one_list() {
    let wire = r#"[[{"name":"first","constraint":[],"trophy":[],"md5":["aa"]},{"name":"second","constraint":[],"trophy":[],"md5":["bb"]}]]"#;
    let value: Value = serde_json::from_str(wire).unwrap();
    let groups: Vec<Vec<Value>> =
        value.as_array().unwrap().iter().map(|group| group.as_array().unwrap().clone()).collect();
    let flat = unlift(groups);
    assert_eq!(flat.len(), 2);
    assert_eq!(flat[0]["name"], "first");
    assert_eq!(flat[1]["name"], "second");
    let lifted = Value::Array(lift(flat).into_iter().map(Value::Array).collect());
    assert_eq!(lifted, value);
    let text = serde_json::to_string(&lifted).unwrap();
    assert!(text.starts_with("[[") && text.ends_with("]]"));
}

#[test]
fn the_courses_of_a_table_serialize_in_two_dimensions() {
    let flat = vec![course("Satellite sl0"), course("Satellite sl1")];
    let groups = lift(flat);
    let value = Value::Array(
        groups.iter().map(|group| Value::Array(group.iter().map(encoded).collect())).collect(),
    );
    let text = serde_json::to_string(&value).unwrap();
    assert!(text.starts_with("[[") && text.ends_with("]]"));
    assert_eq!(value[0][1]["name"], "Satellite sl1");
    assert_eq!(value[0][0]["trophy"][0]["scorerate"], 70.0);
    assert_eq!(value.as_array().unwrap().len(), 1);
}
