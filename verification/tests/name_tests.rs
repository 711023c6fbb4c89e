use attribute_scope::name::{
    InvalidQualifiedName, ModuleQualifiedName, QualifiedName, ReferentName,
};

#[test]
fn qualified_name_conversions() {
    // Text to qualified name: first segment is the project, last is the
    // name, the rest are module segments.
    let q = QualifiedName::from_text("Project.Module.Sub.foo").unwrap();
    assert_eq!(q.project().as_str(), "Project");
    let segments: Vec<&str> = q.module_segments().iter().map(|s| s.as_str()).collect();
    assert_eq!(segments, vec!["Module", "Sub"]);
    assert_eq!(q.name().as_str(), "foo");
    // Qualified name to text: the segments joined with commas.
    assert_eq!(q.to_text().as_str(), "Project,Module,Sub,foo");

    // Module name to qualified name: the last module segment becomes the
    // final name.
    let project = ReferentName::new("Project").unwrap();
    let segments = vec![
        ReferentName::new("Module").unwrap(),
        ReferentName::new("Main").unwrap(),
    ];
    let m = ModuleQualifiedName::new(project, segments).unwrap();
    let q2 = QualifiedName::from_module(m);
    assert_eq!(q2.project().as_str(), "Project");
    let segments2: Vec<&str> = q2.module_segments().iter().map(|s| s.as_str()).collect();
    assert_eq!(segments2, vec!["Module"]);
    assert_eq!(q2.name().as_str(), "Main");
    assert_eq!(q2.to_text().as_str(), "Project,Module,Main");
}

#[test]
fn two_segments_suffice() {
    let q = QualifiedName::from_text("Project.name").unwrap();
    assert_eq!(q.project().as_str(), "Project");
    assert!(q.module_segments().is_empty());
    assert_eq!(q.name().as_str(), "name");
    assert_eq!(q.to_text().as_str(), "Project,name");
}

#[test]
fn single_segment_has_no_module() {
    assert_eq!(
        QualifiedName::from_text("Project").err(),
        Some(InvalidQualifiedName::NoModuleName)
    );
}

#[test]
fn invalid_segments_are_rejected() {
    // A project name must start with a capital letter.
    assert_eq!(
        QualifiedName::from_text("project.Module.foo").err(),
        Some(InvalidQualifiedName::InvalidSegment)
    );
    // So must every module segment; an empty one is invalid too.
    assert_eq!(
        QualifiedName::from_text("Project.module.foo").err(),
        Some(InvalidQualifiedName::InvalidSegment)
    );
    assert_eq!(
        QualifiedName::from_text("Project..foo").err(),
        Some(InvalidQualifiedName::InvalidSegment)
    );
    // The empty text is one empty segment, hence an invalid project name.
    assert_eq!(
        QualifiedName::from_text("").err(),
        Some(InvalidQualifiedName::InvalidSegment)
    );
    // The final name is free-form.
    assert!(QualifiedName::from_text("Project.Module.lower").is_ok());
}

#[test]
fn module_name_needs_a_segment() {
    let project = ReferentName::new("Project").unwrap();
    assert_eq!(
        ModuleQualifiedName::new(project, Vec::new()).err(),
        Some(InvalidQualifiedName::EmptyName)
    );
}

#[test]
fn error_messages() {
    assert_eq!(
        InvalidQualifiedName::EmptyName.message().as_str(),
        "The qualified name is empty."
    );
    assert_eq!(
        InvalidQualifiedName::NoModuleName.message().as_str(),
        "No module in type qualified name."
    );
    assert_eq!(
        InvalidQualifiedName::InvalidSegment.message().as_str(),
        "Invalid name segment in qualified name."
    );
}
