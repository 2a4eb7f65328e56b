//! Script function definitions.

use vstd::prelude::*;
use super::attribute::AttributeType;
use super::annotation::Annotation;
use crate::query_api::eventflux_element::EventFluxElement;

verus! {

/// A function written in a script language, with its return type.
#[derive(Debug, Clone)]
pub struct FunctionDefinition {
    pub eventflux_element: EventFluxElement,
    pub id: String,
    pub language: String,
    pub body: String,
    pub return_type: AttributeType,
    pub annotations: Vec<Annotation>,
}

impl Default for FunctionDefinition {
    fn default() -> (r: Self)
        ensures
            r.id@.len() == 0,
            r.language@.len() == 0,
            r.body@.len() == 0,
            r.return_type == AttributeType::OBJECT,
            r.annotations@.len() == 0,
    {
        FunctionDefinition {
            eventflux_element: EventFluxElement::default(),
            id: String::new(),
            language: String::new(),
            body: String::new(),
            return_type: AttributeType::OBJECT,
            annotations: Vec::new(),
        }
    }
}

impl FunctionDefinition {
    /// A definition with all its parts given.
    pub fn new(id: String, language: String, body: String, return_type: AttributeType) -> (r: Self)
        ensures
            r.id@ == id@,
            r.language@ == language@,
            r.body@ == body@,
            r.return_type == return_type,
            r.annotations@.len() == 0,
    {
        FunctionDefinition {
            eventflux_element: EventFluxElement::default(),
            id,
            language,
            body,
            return_type,
            annotations: Vec::new(),
        }
    }

    /// A definition with only its id set; the rest takes the defaults.
    pub fn id(id: String) -> (r: Self)
        ensures
            r.id@ == id@,
            r.language@.len() == 0,
            r.body@.len() == 0,
            r.return_type == AttributeType::OBJECT,
            r.annotations@.len() == 0,
    {
        let mut d = FunctionDefinition::default();
        d.id = id;
        d
    }

    /// Sets the language.
    pub fn language(self, language: String) -> (r: Self)
        ensures
            r.language@ == language@,
            r.id@ == self.id@,
            r.body@ == self.body@,
            r.return_type == self.return_type,
            r.annotations@ == self.annotations@,
    {
        let mut d = self;
        d.language = language;
        d
    }

    /// Sets the body.
    pub fn body(self, body: String) -> (r: Self)
        ensures
            r.body@ == body@,
            r.id@ == self.id@,
            r.language@ == self.language@,
            r.return_type == self.return_type,
            r.annotations@ == self.annotations@,
    {
        let mut d = self;
        d.body = body;
        d
    }

    /// Sets the return type.
    pub fn return_type(self, return_type: AttributeType) -> (r: Self)
        ensures
            r.return_type == return_type,
            r.id@ == self.id@,
            r.language@ == self.language@,
            r.body@ == self.body@,
            r.annotations@ == self.annotations@,
    {
        let mut d = self;
        d.return_type = return_type;
        d
    }

    /// Adds an annotation at the end.
    pub fn annotation(self, annotation: Annotation) -> (r: Self)
        ensures
            r.annotations@ == self.annotations@.push(annotation),
            r.id@ == self.id@,
            r.language@ == self.language@,
            r.body@ == self.body@,
            r.return_type == self.return_type,
    {
        let mut d = self;
        d.annotations.push(annotation);
        d
    }
}

} // verus!
