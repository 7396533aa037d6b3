//! The template engine boundary: the library compiles templates into the
//! engine's cache and renders them against a JSON context text.
use vstd::prelude::*;

verus! {

/// The template engine, carried opaquely: a minijinja environment with
/// lenient undefined-value behaviour, owning the compiled-template cache.
///
/// The underlying environment is exposed so that the embedding program
/// can register its filters on it. The contracts below assume the
/// embedder leaves the engine's syntax and behaviour configuration
/// alone and registers only deterministic filters — as the filters of
/// this library are; under other uses of `inner` nothing here is
/// promised.
#[verifier::external_body]
pub struct Engine {
    pub inner: minijinja::Environment<'static>,
}

/// Whether a template text compiles, as the engine decides it; a function
/// of the text alone.
pub uninterp spec fn template_compiles(text: Seq<char>) -> bool;

/// What rendering the named template of an engine against a JSON context
/// text produces: `Some` of the output, or `None` where the template is
/// absent or rendering fails. A function of the engine value, the name
/// and the context text alone.
pub uninterp spec fn engine_render(e: Engine, name: Seq<char>, ctx_json: Seq<char>) -> Option<
    Seq<char>,
>;

impl Engine {
    /// Relies on minijinja::Environment::new and set_undefined_behavior:
    /// a fresh engine with an empty cache, rendering missing values
    /// leniently so that they chain.
    #[verifier::external_body]
    pub fn new() -> Engine {
        let mut inner = minijinja::Environment::new();
        inner.set_undefined_behavior(minijinja::UndefinedBehavior::Chainable);
        Engine { inner }
    }

    /// Relies on minijinja::Environment::add_template_owned: stores the
    /// template under its name, failing exactly on texts that do not
    /// compile; whether a text compiles is a function of the text alone.
    #[verifier::external_body]
    pub(crate) fn add_template(&mut self, name: String, text: String) -> (r: Result<(), String>)
        ensures
            (r is Ok) == template_compiles(text@),
    {
        self.inner.add_template_owned(name, text).map_err(|err| err.to_string())
    }

    /// Relies on minijinja::Environment::get_template and
    /// Template::render, which are deterministic for the engines this
    /// library builds: the outcome is a function of the engine value,
    /// the template name and the context text. Context text that is not
    /// valid JSON renders against a null context.
    #[verifier::external_body]
    pub(crate) fn render(&self, name: &str, ctx_json: &str) -> (r: Result<String, String>)
        ensures
            match engine_render(*self, name@, ctx_json@) {
                Some(out) => r matches Ok(s) && s@ == out,
                None => r is Err,
            },
    {
        let ctx: serde_json::Value = serde_json::from_str(ctx_json).unwrap_or(
            serde_json::Value::Null,
        );
        match self.inner.get_template(name) {
            Ok(t) => t.render(ctx).map_err(|err| err.to_string()),
            Err(err) => Err(err.to_string()),
        }
    }
}

} // verus!
