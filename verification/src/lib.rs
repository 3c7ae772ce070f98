//! Incremental build engine for a component-based static website.
//!
//! Pages and components are text files. A component is used by a tag that
//! names it, and a file that uses a changed component has to be built again.
//! The library finds the files to build after an edit, expands the tags of a
//! file into the bodies of the components, and makes the smaller decisions
//! of the build around these two. It reads and writes no file: the program
//! around it does, and hands it texts.

pub mod compilers;
pub mod expand;
pub mod marker;
pub mod parameters;
pub mod passes;
pub mod path_set;
pub mod paths;
pub mod pattern;
pub mod pipeline;
pub mod rebuild;
pub mod scripts;
pub mod staging;
pub mod text;
pub mod translate;

pub use compilers::{
    compilation_summary, compile_scss_file, compile_typescript_file, CompileEvent,
};
pub use expand::{
    replace_html_component_placeholders, ComponentDefinition, ComponentRegistry, Diagnostic,
    ExpandError, ExpansionContext,
};
pub use marker::{build_threshold, read_last_compile_time, update_last_compile_time};
pub use parameters::{ParameterTable, Syntax};
pub use passes::{process_staged_text, Processed};
pub use path_set::PathSet;
pub use paths::{get_relative_path, replace_root_placeholder_with_relative_path_new};
pub use pattern::PatternRejected;
pub use pipeline::{
    compile_order, files_in_source_dir, files_to_compile, get_non_prioritised_files_list,
    load_components_list, only_modify_time_newer_than_last_compile_time, prioritised_files,
    strip_html_suffix_from_links, CompileOrder, ComponentFiles, InvalidPriorityListEntry,
    SourceFile,
};
pub use rebuild::{get_all_files_that_need_recompiling, HtmlSource, ScannedFile};
pub use scripts::{
    add_reusable_javascript_components, include_first_snippet, script_tags, ScriptInclusion,
    ScriptTag, Snippet,
};
pub use staging::{
    compile_all, place_in_output, stage_file, SourceKind, StagedFile, StagingError, StagingPlan,
};
pub use translate::{
    generate_language_file, get_translation_for_language_page_variable, load_translation_file,
    load_translation_files_from_paths, localized_file_name, JsonDocument, JsonEntry, JsonLeaf,
    LanguageTexts, PageTexts, Translations,
};
