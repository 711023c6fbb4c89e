//! Built-in visualization definitions: small script sources bundled with
//! the engine, each wrapped in a [`Definition`] that records the library it
//! belongs to. A definition with an empty source is rejected; absence of a
//! visualization class is the one structural fault these bundles can have.

use vstd::prelude::*;
use vstd::string::StringExecFns;

verus! {

/// Why a visualization definition was rejected.
#[derive(Clone, Copy, Debug, PartialEq, Eq, Structural)]
pub enum DefinitionError {
    /// The script source is empty, so it cannot declare a visualization.
    EmptySource,
}

/// A visualization definition: the owning library and the script source.
pub struct Definition {
    /// Name of the library the visualization belongs to.
    pub library: String,
    /// The script source of the visualization.
    pub source: String,
}

/// A visualization definition, or the reason it was rejected.
pub type FallibleDefinition = Result<Definition, DefinitionError>;

impl Definition {
    /// Wrap a script source as a visualization definition of the given
    /// library; rejects an empty source.
    pub fn new(library: &str, source: &str) -> (r: FallibleDefinition)
        ensures
            r is Ok <==> source@.len() > 0,
            r matches Ok(d) ==> d.library@ == library@ && d.source@ == source@,
            r matches Err(e) ==> e == DefinitionError::EmptySource,
    {
        if source.is_empty() {
            Err(DefinitionError::EmptySource)
        } else {
            Ok(Definition { library: library.to_owned(), source: source.to_owned() })
        }
    }
}

/// Library name that owns the built-in visualizations.
pub fn builtin_library() -> (r: String)
    ensures
        r@ == "Builtin"@,
{
    "Builtin".to_owned()
}

/// Return a table visualization.
pub fn table_visualization() -> (r: FallibleDefinition)
    ensures
        r matches Ok(d) ==> d.library@ == "Builtin"@ && d.source@
            == "class TableVisualization extends Visualization {}\nreturn TableVisualization;"@,
        r is Ok,
{
    let source = "class TableVisualization extends Visualization {}\nreturn TableVisualization;";
    proof {
        reveal_strlit(
            "class TableVisualization extends Visualization {}\nreturn TableVisualization;",
        );
    }
    let library = builtin_library();
    Definition::new(library.as_str(), source)
}

/// Return a scatter-plot visualization; its source is the shared loading
/// script followed by the plot script.
pub fn scatter_plot_visualization() -> (r: FallibleDefinition)
    ensures
        r matches Ok(d) ==> d.library@ == "Builtin"@ && d.source@ == "const loader = new ScriptLoader();\n"@
            + "class ScatterPlot extends Visualization {}\nreturn ScatterPlot;"@,
        r is Ok,
{
    let loading_scripts = "const loader = new ScriptLoader();\n";
    let source = "class ScatterPlot extends Visualization {}\nreturn ScatterPlot;";
    let source = loading_scripts.to_owned().concat(source);
    proof {
        reveal_strlit("const loader = new ScriptLoader();\n");
        reveal_strlit("class ScatterPlot extends Visualization {}\nreturn ScatterPlot;");
    }
    let library = builtin_library();
    Definition::new(library.as_str(), source.as_str())
}

/// Return a histogram visualization; its source is the shared loading
/// script followed by the histogram script.
pub fn histogram_visualization() -> (r: FallibleDefinition)
    ensures
        r matches Ok(d) ==> d.library@ == "Builtin"@ && d.source@ == "const loader = new ScriptLoader();\n"@
            + "class Histogram extends Visualization {}\nreturn Histogram;"@,
        r is Ok,
{
    let loading_scripts = "const loader = new ScriptLoader();\n";
    let source = "class Histogram extends Visualization {}\nreturn Histogram;";
    let source = loading_scripts.to_owned().concat(source);
    proof {
        reveal_strlit("const loader = new ScriptLoader();\n");
        reveal_strlit("class Histogram extends Visualization {}\nreturn Histogram;");
    }
    let library = builtin_library();
    Definition::new(library.as_str(), source.as_str())
}

/// Return a geographic-map visualization; its source is the shared loading
/// script followed by the map script.
pub fn geo_map_visualization() -> (r: FallibleDefinition)
    ensures
        r matches Ok(d) ==> d.library@ == "Builtin"@ && d.source@ == "const loader = new ScriptLoader();\n"@
            + "class GeoMap extends Visualization {}\nreturn GeoMap;"@,
        r is Ok,
{
    let loading_scripts = "const loader = new ScriptLoader();\n";
    let source = "class GeoMap extends Visualization {}\nreturn GeoMap;";
    let source = loading_scripts.to_owned().concat(source);
    proof {
        reveal_strlit("const loader = new ScriptLoader();\n");
        reveal_strlit("class GeoMap extends Visualization {}\nreturn GeoMap;");
    }
    let library = builtin_library();
    Definition::new(library.as_str(), source.as_str())
}

/// Return a bubble visualization; a demonstration, not meant for real use.
pub fn bubble_visualization() -> (r: FallibleDefinition)
    ensures
        r matches Ok(d) ==> d.library@ == "Builtin"@ && d.source@
            == "class BubbleVisualization extends Visualization {}\nreturn BubbleVisualization;"@,
        r is Ok,
{
    let source = "class BubbleVisualization extends Visualization {}\nreturn BubbleVisualization;";
    proof {
        reveal_strlit(
            "class BubbleVisualization extends Visualization {}\nreturn BubbleVisualization;",
        );
    }
    let library = builtin_library();
    Definition::new(library.as_str(), source)
}

/// Return an empty minimal visualization, for testing only.
pub fn empty_visualization() -> (r: FallibleDefinition)
    ensures
        r matches Ok(d) ==> d.library@ == "Builtin"@ && d.source@
            == "class EmptyVisualization extends Visualization {}\nreturn EmptyVisualization;"@,
        r is Ok,
{
    let source = "class EmptyVisualization extends Visualization {}\nreturn EmptyVisualization;";
    proof {
        reveal_strlit(
            "class EmptyVisualization extends Visualization {}\nreturn EmptyVisualization;",
        );
    }
    let library = builtin_library();
    Definition::new(library.as_str(), source)
}

} // verus!
