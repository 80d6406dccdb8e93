//! The top level of an OpenAPI document, as far as the conversion reads it.
use vstd::prelude::*;
use crate::yaml::{Mapping, MapV, Yaml, YamlV};

verus! {

/// The top-level fields of an OpenAPI document that the conversion keeps.
pub struct OpenApiTopLevel {
    pub openapi: String,
    pub info: Option<Mapping>,
    pub paths: Option<Mapping>,
    pub components: Option<Mapping>,
    pub tags: Option<Yaml>,
}

/// The view of the top level of a document.
pub struct DocumentV {
    pub openapi: Seq<char>,
    pub info: Option<MapV>,
    pub paths: Option<MapV>,
    pub components: Option<MapV>,
    pub tags: Option<YamlV>,
}

/// The view of an optional mapping.
pub open spec fn mapping_opt_view(m: Option<Mapping>) -> Option<MapV> {
    match m {
        Some(m) => Some(m@),
        None => None,
    }
}

/// The view of an optional value.
pub open spec fn yaml_opt_view(y: Option<Yaml>) -> Option<YamlV> {
    match y {
        Some(y) => Some(y@),
        None => None,
    }
}

impl View for OpenApiTopLevel {
    type V = DocumentV;

    open spec fn view(&self) -> DocumentV {
        DocumentV {
            openapi: self.openapi@,
            info: mapping_opt_view(self.info),
            paths: mapping_opt_view(self.paths),
            components: mapping_opt_view(self.components),
            tags: yaml_opt_view(self.tags),
        }
    }
}

} // verus!
