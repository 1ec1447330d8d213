use course_sync::catalog::{course_selected, select_courses, Course};

fn course(id: &str, name: &str) -> Course {
    Course { id: String::from(id), display_name: String::from(name) }
}

#[test]
fn an_empty_list_selects_every_course() {
    assert!(course_selected("101", &Vec::new()));
    assert!(course_selected("", &Vec::new()));
}

#[test]
fn a_list_selects_the_courses_it_names() {
    let wanted = vec![String::from("101"), String::from("205")];
    assert!(course_selected("101", &wanted));
    assert!(course_selected("205", &wanted));
    assert!(!course_selected("10", &wanted));
    assert!(!course_selected("1010", &wanted));
    assert!(!course_selected("300", &wanted));
}

#[test]
fn select_courses_keeps_catalog_order() {
    let catalog = vec![course("300", "Logic"), course("101", "Algebra"), course("205", "Optics")];
    let wanted = vec![String::from("205"), String::from("300")];
    assert_eq!(
        select_courses(catalog, &wanted),
        vec![course("300", "Logic"), course("205", "Optics")]
    );
}

#[test]
fn select_courses_with_an_empty_list_keeps_all() {
    let catalog = vec![course("300", "Logic"), course("101", "Algebra")];
    assert_eq!(select_courses(catalog.clone(), &Vec::new()), catalog);
    assert_eq!(course("1", "a").clone(), course("1", "a"));
}
