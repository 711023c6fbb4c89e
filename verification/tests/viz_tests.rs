use attribute_scope::viz::{
    builtin_library, bubble_visualization, empty_visualization, geo_map_visualization,
    histogram_visualization, scatter_plot_visualization, table_visualization, Definition,
    DefinitionError,
};

#[test]
fn builtin_library_name() {
    assert_eq!(builtin_library().as_str(), "Builtin");
}

#[test]
fn table_definition() {
    let d = table_visualization().unwrap();
    assert_eq!(d.library.as_str(), "Builtin");
    assert_eq!(
        d.source.as_str(),
        "class TableVisualization extends Visualization {}\nreturn TableVisualization;"
    );
}

#[test]
fn loading_script_definitions() {
    let scatter = scatter_plot_visualization().unwrap();
    assert_eq!(scatter.library.as_str(), "Builtin");
    assert_eq!(
        scatter.source.as_str(),
        "const loader = new ScriptLoader();\nclass ScatterPlot extends Visualization {}\nreturn ScatterPlot;"
    );
    let histogram = histogram_visualization().unwrap();
    assert!(histogram.source.starts_with("const loader = new ScriptLoader();\n"));
    assert!(histogram.source.contains("class Histogram"));
    let geo = geo_map_visualization().unwrap();
    assert!(geo.source.starts_with("const loader = new ScriptLoader();\n"));
    assert!(geo.source.contains("class GeoMap"));
}

#[test]
fn demo_definitions() {
    let bubble = bubble_visualization().unwrap();
    assert_eq!(bubble.library.as_str(), "Builtin");
    assert!(bubble.source.contains("class BubbleVisualization"));
    let empty = empty_visualization().unwrap();
    assert_eq!(empty.library.as_str(), "Builtin");
    assert_eq!(
        empty.source.as_str(),
        "class EmptyVisualization extends Visualization {}\nreturn EmptyVisualization;"
    );
}

#[test]
fn empty_source_is_rejected() {
    let r = Definition::new("Builtin", "");
    assert_eq!(r.err(), Some(DefinitionError::EmptySource));
}
