//! String templating for staging fields.
//!
//! Every path-bearing field of a staging description is a [`Template`] and
//! must be rendered against a fixed variable context before it is used as a
//! path.  Rendering is delegated to the liquid templating engine with no
//! tags, blocks or filters registered, so what a render returns is a
//! function of the variable bindings and the template text alone; that
//! function is left abstract here under the name [`rendered`].

use vstd::prelude::*;

use crate::error::{context_error, ErrorKind, ErrorSpec, StagingError};

verus! {

/// The variable bindings a [`liquid::Object`] holds; every binding written
/// through this module maps a variable name to a string value.
pub uninterp spec fn object_contents(o: liquid::Object) -> Map<Seq<char>, Seq<char>>;

/// What rendering `template` against the variable bindings `globals`
/// returns: the substituted text, or `None` when the template is invalid or
/// refers to anything the bindings do not define.
pub uninterp spec fn rendered(globals: Map<Seq<char>, Seq<char>>, template: Seq<char>) -> Option<
    Seq<char>,
>;

#[verifier::external_type_specification]
#[verifier::external_body]
pub struct ExObject(liquid::Object);

/// The context with no bindings at all.
pub open spec fn empty_context() -> Map<Seq<char>, Seq<char>> {
    Map::<Seq<char>, Seq<char>>::empty()
}

/// Relies on `liquid::Object::new`: the fresh object holds no bindings.
#[verifier::external_body]
fn object_new() -> (o: liquid::Object)
    ensures
        object_contents(o) == empty_context(),
{
    liquid::Object::new()
}

/// Relies on `liquid::Object::insert`: binds `key` to the string value
/// `value`, replacing any earlier binding of `key`.
#[verifier::external_body]
fn object_insert(o: &mut liquid::Object, key: &str, value: &str)
    ensures
        object_contents(*final(o)) == object_contents(*old(o)).insert(key@, value@),
{
    o.insert(liquid::model::KString::from_ref(key), liquid::model::Value::scalar(value.to_owned()));
}

/// Relies on liquid's `ParserBuilder`, `Parser::parse` and
/// `Template::render`, with no tags, blocks or filters registered: rendering
/// substitutes the object's bindings into the template text, a function of
/// the bindings and the text alone.  The text of a liquid error is
/// discarded.
#[verifier::external_body]
fn render_raw(globals: &liquid::Object, template: &str) -> (r: Option<String>)
    ensures
        match rendered(object_contents(*globals), template@) {
            Some(s) => r matches Some(out) && out@ == s,
            None => r is None,
        },
{
    let parser = liquid::ParserBuilder::new().build().ok()?;
    let parsed = parser.parse(template).ok()?;
    parsed.render(globals).ok()
}

/// The variable context that `pairs` builds up: a later binding of a key
/// replaces an earlier one.
pub open spec fn spec_context(pairs: Seq<(Seq<char>, Seq<char>)>) -> Map<Seq<char>, Seq<char>>
    decreases pairs.len(),
{
    if pairs.len() == 0 {
        empty_context()
    } else {
        spec_context(pairs.drop_last()).insert(pairs.last().0, pairs.last().1)
    }
}

/// The model of the error a failed render of `template` produces.
pub open spec fn render_error(template: Seq<char>) -> ErrorSpec {
    context_error(ErrorKind::InvalidConfiguration, "Failed to render template: "@ + template)
}

/// String-templating engine bound to an immutable variable context.
pub struct TemplateEngine {
    globals: liquid::Object,
}

impl View for TemplateEngine {
    type V = Map<Seq<char>, Seq<char>>;

    closed spec fn view(&self) -> Map<Seq<char>, Seq<char>> {
        object_contents(self.globals)
    }
}

impl TemplateEngine {
    /// An engine whose renders substitute the variables bound by `context`,
    /// in order, a later binding of a name replacing an earlier one.
    pub fn new(context: &Vec<(String, String)>) -> (r: Self)
        ensures
            r@ == spec_context(context.deep_view()),
    {
        let ghost pairs = context.deep_view();
        let mut globals = object_new();
        let mut i: usize = 0;
        while i < context.len()
            invariant
                i <= context.len(),
                pairs == context.deep_view(),
                object_contents(globals) == spec_context(pairs.take(i as int)),
            decreases context.len() - i,
        {
            object_insert(&mut globals, context[i].0.as_str(), context[i].1.as_str());
            i = i + 1;
            proof {
                assert(pairs.take(i as int).drop_last() =~= pairs.take(i as int - 1));
            }
        }
        proof {
            assert(pairs.take(context@.len() as int) =~= pairs);
        }
        TemplateEngine { globals }
    }

    /// Renders `template` against this engine's context.  Fails with an
    /// `InvalidConfiguration` error when the template is invalid or refers
    /// to anything the context does not define.
    pub fn render(&self, template: &str) -> (r: Result<String, StagingError>)
        ensures
            match rendered(self@, template@) {
                Some(s) => r matches Ok(out) && out@ == s,
                None => r matches Err(e) && e@ == render_error(template@),
            },
    {
        match render_raw(&self.globals, template) {
            Some(s) => Ok(s),
            None => {
                let msg = String::from_str("Failed to render template: ").concat(template);
                Err(ErrorKind::InvalidConfiguration.error().set_context(msg))
            },
        }
    }
}

/// A field holding a single template string.
#[derive(Debug, Clone, PartialEq, Eq)]
pub struct Template(String);

impl View for Template {
    type V = Seq<char>;

    closed spec fn view(&self) -> Seq<char> {
        self.0@
    }
}

impl DeepView for Template {
    type V = Seq<char>;

    open spec fn deep_view(&self) -> Seq<char> {
        self@
    }
}

impl Template {
    /// Treat `s` as a template string.
    pub fn new(s: String) -> (r: Self)
        ensures
            r@ == s@,
    {
        Self(s)
    }

    /// Renders this template against `engine`'s context.
    pub fn format(&self, engine: &TemplateEngine) -> (r: Result<String, StagingError>)
        ensures
            match rendered(engine@, self@) {
                Some(s) => r matches Ok(out) && out@ == s,
                None => r matches Err(e) && e@ == render_error(self@),
            },
    {
        engine.render(self.0.as_str())
    }
}

/// A field that is logically a sequence of values but may be written as a
/// single one.
#[derive(Debug, Clone, PartialEq, Eq)]
pub enum OneOrMany<T> {
    /// Short-cut for a sequence of one value.
    One(T),
    /// A sequence of values.
    Many(Vec<T>),
}

impl View for OneOrMany<Template> {
    type V = Seq<Seq<char>>;

    open spec fn view(&self) -> Seq<Seq<char>> {
        match self {
            OneOrMany::One(t) => seq![t@],
            OneOrMany::Many(v) => v.deep_view(),
        }
    }
}

/// Renders each of `templates` against `ctx`, in order, stopping at the
/// first failure.
pub open spec fn spec_render_all(ctx: Map<Seq<char>, Seq<char>>, templates: Seq<Seq<char>>) -> Result<
    Seq<Seq<char>>,
    ErrorSpec,
>
    decreases templates.len(),
{
    if templates.len() == 0 {
        Ok(Seq::<Seq<char>>::empty())
    } else {
        match spec_render_all(ctx, templates.drop_last()) {
            Err(e) => Err(e),
            Ok(rs) => match rendered(ctx, templates.last()) {
                None => Err(render_error(templates.last())),
                Some(s) => Ok(rs.push(s)),
            },
        }
    }
}

impl OneOrMany<Template> {
    /// Renders every template in order, failing on the first that does not
    /// render.
    pub fn format(&self, engine: &TemplateEngine) -> (r: Result<Vec<String>, StagingError>)
        ensures
            match spec_render_all(engine@, self@) {
                Ok(vs) => r matches Ok(out) && out.deep_view() == vs,
                Err(e) => r matches Err(err) && err@ == e,
            },
    {
        match self {
            OneOrMany::One(t) => {
                proof {
                    assert(self@ =~= seq![t@]);
                    assert(self@.len() == 1);
                    assert(self@.drop_last() =~= Seq::<Seq<char>>::empty());
                    assert(self@.last() == t@);
                    assert(spec_render_all(engine@, self@.drop_last()) == Ok::<
                        Seq<Seq<char>>,
                        ErrorSpec,
                    >(Seq::<Seq<char>>::empty()));
                }
                match t.format(engine) {
                    Ok(s) => {
                        let mut out: Vec<String> = Vec::new();
                        let ghost sv = s@;
                        out.push(s);
                        proof {
                            assert(out.deep_view() =~= Seq::<Seq<char>>::empty().push(sv));
                            assert(rendered(engine@, t@) == Some(sv));
                            assert(spec_render_all(engine@, self@) == Ok::<
                                Seq<Seq<char>>,
                                ErrorSpec,
                            >(out.deep_view()));
                        }
                        Ok(out)
                    },
                    Err(e) => {
                        proof {
                            assert(rendered(engine@, t@) is None);
                            assert(spec_render_all(engine@, self@) == Err::<
                                Seq<Seq<char>>,
                                ErrorSpec,
                            >(render_error(t@)));
                            assert(e@ == render_error(t@));
                        }
                        Err(e)
                    },
                }
            },
            OneOrMany::Many(v) => {
                let ghost ts = v.deep_view();
                let mut out: Vec<String> = Vec::new();
                let mut i: usize = 0;
                proof {
                    assert(ts.take(0) =~= Seq::<Seq<char>>::empty());
                    assert(out.deep_view() =~= Seq::<Seq<char>>::empty());
                }
                while i < v.len()
                    invariant
                        i <= v.len(),
                        ts == v.deep_view(),
                        self@ == ts,
                        spec_render_all(engine@, ts.take(i as int)) matches Ok(vs) && vs
                            == out.deep_view(),
                    decreases v.len() - i,
                {
                    let ghost pre = out.deep_view();
                    let s = v[i].format(engine);
                    proof {
                        assert(ts.take(i as int + 1).drop_last() =~= ts.take(i as int));
                        assert(ts.take(i as int + 1).last() == ts[i as int]);
                        assert(ts[i as int] == v@[i as int]@);
                    }
                    match s {
                        Ok(s) => {
                            let ghost sv = s@;
                            out.push(s);
                            i = i + 1;
                            proof {
                                assert(out.deep_view() =~= pre.push(sv));
                            }
                        },
                        Err(e) => {
                            proof {
                                assert(self@ == ts);
                                assert(rendered(engine@, v@[i as int]@) is None);
                                assert(rendered(engine@, ts[i as int]) is None);
                                assert(spec_render_all(engine@, ts.take(i as int + 1))
                                    == Err::<Seq<Seq<char>>, ErrorSpec>(render_error(ts[i as int])));
                                lemma_render_all_err(engine@, ts, i as int + 1);
                                assert(spec_render_all(engine@, self@) == Err::<
                                    Seq<Seq<char>>,
                                    ErrorSpec,
                                >(render_error(ts[i as int])));
                            }
                            return Err(e);
                        },
                    }
                }
                proof {
                    assert(ts.take(v@.len() as int) =~= ts);
                    assert(spec_render_all(engine@, self@) == Ok::<Seq<Seq<char>>, ErrorSpec>(
                        out.deep_view(),
                    ));
                }
                Ok(out)
            },
        }
    }
}

/// Once a prefix of the templates fails to render, the whole sequence does,
/// with the same error.
proof fn lemma_render_all_err(ctx: Map<Seq<char>, Seq<char>>, ts: Seq<Seq<char>>, n: int)
    requires
        0 <= n <= ts.len(),
        spec_render_all(ctx, ts.take(n)) is Err,
    ensures
        spec_render_all(ctx, ts) is Err,
        spec_render_all(ctx, ts) == spec_render_all(ctx, ts.take(n)),
    decreases ts.len() - n,
{
    if n < ts.len() {
        assert(ts.take(n + 1).drop_last() =~= ts.take(n));
        lemma_render_all_err(ctx, ts, n + 1);
    } else {
        assert(ts.take(n) =~= ts);
    }
}

} // verus!
