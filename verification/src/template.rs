//! The template renderer: substitutes a build context into name templates to
//! produce concrete parameter names.
//!
//! A template is a string in which `{variant}`, `{arch}` and `{image_version}`
//! stand for the fields of a [`BuildContext`].  Rendering is pure and
//! deterministic: the same template set with the same context always yields
//! byte-identical names, which is what later lets two independently rendered
//! maps be correlated through their template strings.

use crate::params::NameMap;
use vstd::prelude::*;
use vstd::string::StrSliceExecFns;
use vstd::string::StringExecFns;

verus! {

/// Immutable context that drives name templating: one is built for the
/// source version and one for the target version of an operation.
pub struct BuildContext {
    /// The variant name for the current build.
    pub variant: String,
    /// The architecture of the machine image.
    pub arch: String,
    /// Version number (or string) this context renders names for.
    pub image_version: String,
}

/// The mathematical content of a [`BuildContext`].
pub struct BuildContextView {
    pub variant: Seq<char>,
    pub arch: Seq<char>,
    pub image_version: Seq<char>,
}

impl View for BuildContext {
    type V = BuildContextView;

    open spec fn view(&self) -> BuildContextView {
        BuildContextView {
            variant: self.variant@,
            arch: self.arch@,
            image_version: self.image_version@,
        }
    }
}

impl BuildContext {
    pub fn new(variant: String, arch: String, image_version: String) -> (r: BuildContext)
        ensures
            r@ == (BuildContextView { variant: variant@, arch: arch@, image_version: image_version@ }),
    {
        BuildContext { variant, arch, image_version }
    }
}

/// Why rendering a template failed.
#[derive(Debug, Clone, PartialEq, Eq)]
pub enum TemplateError {
    /// A placeholder named a field the build context does not have.
    UnknownField { field: String },
    /// A `{` was never closed by a `}`.
    UnclosedPlaceholder,
    /// Substitution succeeded but the prefixed name came out empty.
    EmptyName,
}

/// The outcome of substituting a context into a template.
pub enum SpecRender {
    /// Substitution succeeded with this text.
    Done(Seq<char>),
    /// A placeholder named this unknown field.
    BadField(Seq<char>),
    /// A `{` was never closed.
    Unclosed,
}

/// The value a placeholder field stands for, if the context has the field.
pub open spec fn field_value(name: Seq<char>, ctx: BuildContextView) -> Option<Seq<char>> {
    if name == "variant"@ {
        Some(ctx.variant)
    } else if name == "arch"@ {
        Some(ctx.arch)
    } else if name == "image_version"@ {
        Some(ctx.image_version)
    } else {
        None
    }
}

/// The position of the first `}` at or after `i`, or `t.len()` if there is
/// none.
pub open spec fn find_close(t: Seq<char>, i: int) -> int
    decreases t.len() - i,
{
    if i >= t.len() {
        t.len() as int
    } else if t[i] == '}' {
        i
    } else {
        find_close(t, i + 1)
    }
}

pub proof fn lemma_find_close_bounds(t: Seq<char>, i: int)
    requires
        0 <= i <= t.len(),
    ensures
        i <= find_close(t, i) <= t.len(),
        find_close(t, i) < t.len() ==> t[find_close(t, i)] == '}',
        forall|k: int| i <= k < find_close(t, i) ==> t[k] != '}',
    decreases t.len() - i,
{
    if i < t.len() && t[i] != '}' {
        lemma_find_close_bounds(t, i + 1);
    }
}

proof fn lemma_find_close_at(t: Seq<char>, i: int, j: int)
    requires
        0 <= i <= j <= t.len(),
        forall|k: int| i <= k < j ==> t[k] != '}',
        j < t.len() ==> t[j] == '}',
    ensures
        find_close(t, i) == j,
    decreases j - i,
{
    if i < j {
        lemma_find_close_at(t, i + 1, j);
    }
}

/// Substitution of `ctx` into the tail of `t` that starts at position `i`:
/// literal characters are kept, each `{field}` placeholder becomes the
/// field's value.
pub open spec fn spec_render_from(t: Seq<char>, i: int, ctx: BuildContextView) -> SpecRender
    decreases t.len() - i,
{
    if i < 0 || i >= t.len() {
        SpecRender::Done(Seq::empty())
    } else if t[i] == '{' {
        proof {
            lemma_find_close_bounds(t, i + 1);
        }
        let j = find_close(t, i + 1);
        if j >= t.len() {
            SpecRender::Unclosed
        } else {
            match field_value(t.subrange(i + 1, j), ctx) {
                None => SpecRender::BadField(t.subrange(i + 1, j)),
                Some(v) => match spec_render_from(t, j + 1, ctx) {
                    SpecRender::Done(rest) => SpecRender::Done(v + rest),
                    SpecRender::BadField(f) => SpecRender::BadField(f),
                    SpecRender::Unclosed => SpecRender::Unclosed,
                },
            }
        }
    } else {
        match spec_render_from(t, i + 1, ctx) {
            SpecRender::Done(rest) => SpecRender::Done(seq![t[i]] + rest),
            SpecRender::BadField(f) => SpecRender::BadField(f),
            SpecRender::Unclosed => SpecRender::Unclosed,
        }
    }
}

/// Substitution of `ctx` into the whole of `t`.
pub open spec fn spec_render(t: Seq<char>, ctx: BuildContextView) -> SpecRender {
    spec_render_from(t, 0, ctx)
}

fn str_eq(a: &str, b: &str) -> (r: bool)
    ensures
        r == (a@ == b@),
{
    let x = a.to_owned();
    let y = b.to_owned();
    x.eq(&y)
}

fn field_lookup<'a>(field: &str, context: &'a BuildContext) -> (r: Option<&'a String>)
    ensures
        match r {
            Some(v) => field_value(field@, context@) == Some(v@),
            None => field_value(field@, context@) is None,
        },
{
    if str_eq(field, "variant") {
        Some(&context.variant)
    } else if str_eq(field, "arch") {
        Some(&context.arch)
    } else if str_eq(field, "image_version") {
        Some(&context.image_version)
    } else {
        None
    }
}

/// Substitutes the context's fields into one template, without a prefix.
/// Returns exactly what the substitution relation says: the substituted text,
/// or the error naming the unknown field, or the unclosed-placeholder error.
pub fn render_template(template: &str, context: &BuildContext) -> (r: Result<
    String,
    TemplateError,
>)
    ensures
        match spec_render(template@, context@) {
            SpecRender::Done(s) => r matches Ok(out) && out@ == s,
            SpecRender::BadField(f) => r matches Err(e) && e matches TemplateError::UnknownField {
                field,
            } && field@ == f,
            SpecRender::Unclosed => r == Err::<String, TemplateError>(
                TemplateError::UnclosedPlaceholder,
            ),
        },
{
    let ghost t = template@;
    let ghost ctx = context@;
    let n = template.unicode_len();
    let mut out = String::new();
    let mut i: usize = 0;
    while i < n
        invariant
            n == t.len(),
            t == template@,
            ctx == context@,
            i <= n,
            match spec_render_from(t, i as int, ctx) {
                SpecRender::Done(rest) => spec_render(t, ctx) == SpecRender::Done(out@ + rest),
                SpecRender::BadField(f) => spec_render(t, ctx) == SpecRender::BadField(f),
                SpecRender::Unclosed => spec_render(t, ctx) == SpecRender::Unclosed,
            },
        decreases n - i,
    {
        let ghost prev_i = i as int;
        let ghost old_out = out@;
        let c = template.get_char(i);
        if c == '{' {
            let mut j = i + 1;
            while j < n && template.get_char(j) != '}'
                invariant
                    n == t.len(),
                    t == template@,
                    i + 1 <= j <= n,
                    forall|k: int| i + 1 <= k < j ==> t[k] != '}',
                decreases n - j,
            {
                j += 1;
            }
            proof {
                lemma_find_close_at(t, prev_i + 1, j as int);
            }
            if j == n {
                proof {
                    assert(spec_render_from(t, prev_i, ctx) == SpecRender::Unclosed);
                }
                return Err(TemplateError::UnclosedPlaceholder);
            }
            let field = template.substring_char(i + 1, j);
            match field_lookup(field, context) {
                Some(value) => {
                    out.append(value.as_str());
                    i = j + 1;
                    proof {
                        let r_next = spec_render_from(t, i as int, ctx);
                        if r_next is Done {
                            assert(spec_render_from(t, prev_i, ctx) == SpecRender::Done(
                                value@ + r_next->Done_0,
                            ));
                            assert(old_out + (value@ + r_next->Done_0) =~= out@ + r_next->Done_0);
                        } else {
                            assert(spec_render_from(t, prev_i, ctx) == r_next);
                        }
                    }
                },
                None => {
                    proof {
                        assert(spec_render_from(t, prev_i, ctx) == SpecRender::BadField(
                            t.subrange(prev_i + 1, j as int),
                        ));
                    }
                    return Err(TemplateError::UnknownField { field: field.to_owned() });
                },
            }
        } else {
            let piece = template.substring_char(i, i + 1);
            out.append(piece);
            i += 1;
            proof {
                assert(piece@ =~= seq![t[prev_i]]);
                let r_next = spec_render_from(t, i as int, ctx);
                if r_next is Done {
                    assert(spec_render_from(t, prev_i, ctx) == SpecRender::Done(
                        seq![t[prev_i]] + r_next->Done_0,
                    ));
                    assert(old_out + (seq![t[prev_i]] + r_next->Done_0) =~= out@ + r_next->Done_0);
                } else {
                    assert(spec_render_from(t, prev_i, ctx) == r_next);
                }
            }
        }
    }
    proof {
        assert(spec_render_from(t, i as int, ctx) == SpecRender::Done(Seq::<char>::empty()));
        assert(out@ + Seq::<char>::empty() =~= out@);
    }
    Ok(out)
}

/// Whether one template renders successfully under a prefix: substitution
/// succeeds and the prefixed name is not empty.
pub open spec fn renders_to_name(t: Seq<char>, prefix: Seq<char>, ctx: BuildContextView) -> bool {
    spec_render(t, ctx) is Done && (prefix + spec_render(t, ctx)->Done_0).len() > 0
}

/// The concrete name one template renders to: the prefix followed by the
/// substituted text.
pub open spec fn spec_name_of(t: Seq<char>, prefix: Seq<char>, ctx: BuildContextView) -> Seq<
    char,
> {
    prefix + spec_render(t, ctx)->Done_0
}

/// How a failed template relates to the error that is reported for it.
pub open spec fn render_error_matches(
    t: Seq<char>,
    prefix: Seq<char>,
    ctx: BuildContextView,
    e: TemplateError,
) -> bool {
    match spec_render(t, ctx) {
        SpecRender::Done(s) => (prefix + s).len() == 0 && e == TemplateError::EmptyName,
        SpecRender::BadField(f) => e matches TemplateError::UnknownField { field } && field@ == f,
        SpecRender::Unclosed => e == TemplateError::UnclosedPlaceholder,
    }
}

/// Substitutes the context into one template and prepends the prefix.
/// Fails on an unknown field, an unclosed placeholder, or an empty rendered
/// name, exactly as [`render_error_matches`] describes.
pub fn render_parameter_name(template: &str, prefix: &str, context: &BuildContext) -> (r: Result<
    String,
    TemplateError,
>)
    ensures
        match r {
            Ok(name) => renders_to_name(template@, prefix@, context@) && name@ == spec_name_of(
                template@,
                prefix@,
                context@,
            ),
            Err(e) => !renders_to_name(template@, prefix@, context@) && render_error_matches(
                template@,
                prefix@,
                context@,
                e,
            ),
        },
{
    match render_template(template, context) {
        Ok(rendered) => {
            let mut name = prefix.to_owned();
            name.append(rendered.as_str());
            if name.as_str().unicode_len() == 0 {
                Err(TemplateError::EmptyName)
            } else {
                Ok(name)
            }
        },
        Err(e) => Err(e),
    }
}

/// The association from each template string to the name it renders to,
/// defined when every template of the set renders to a name.
pub open spec fn spec_rendered_names(
    templates: Seq<Seq<char>>,
    prefix: Seq<char>,
    ctx: BuildContextView,
) -> Map<Seq<char>, Seq<char>> {
    Map::new(
        |t: Seq<char>| templates.contains(t),
        |t: Seq<char>| spec_name_of(t, prefix, ctx),
    )
}

/// Renders every template of a set under one context and prefix, recording
/// `(template string -> rendered name)`.  The template string is the join
/// key that later correlates a source-rendered name with the target-rendered
/// name that came from the same template.  Fails with the first failing
/// template's error.
pub fn render_parameter_names(templates: &Vec<String>, prefix: &str, context: &BuildContext) -> (r:
    Result<NameMap, TemplateError>)
    ensures
        match r {
            Ok(m) => (forall|j: int|
                0 <= j < templates.deep_view().len() ==> renders_to_name(
                    #[trigger] templates.deep_view()[j],
                    prefix@,
                    context@,
                )) && m@ == spec_rendered_names(templates.deep_view(), prefix@, context@),
            Err(e) => exists|j: int|
                0 <= j < templates.deep_view().len() && !renders_to_name(
                    #[trigger] templates.deep_view()[j],
                    prefix@,
                    context@,
                ) && render_error_matches(templates.deep_view()[j], prefix@, context@, e) && (
                forall|k: int|
                    0 <= k < j ==> renders_to_name(templates.deep_view()[k], prefix@, context@)),
        },
{
    let ghost ts = templates.deep_view();
    let ghost ctx = context@;
    let n = templates.len();
    let mut out = NameMap::new();
    let mut i: usize = 0;
    proof {
        assert(ts.len() == templates@.len());
        assert(out@ =~= spec_rendered_names(ts.take(0), prefix@, ctx));
    }
    while i < n
        invariant
            n == templates@.len(),
            ts == templates.deep_view(),
            ts.len() == n,
            ctx == context@,
            i <= n,
            forall|k: int| 0 <= k < i ==> renders_to_name(#[trigger] ts[k], prefix@, ctx),
            out@ == spec_rendered_names(ts.take(i as int), prefix@, ctx),
        decreases n - i,
    {
        proof {
            assert(ts[i as int] == templates@[i as int]@);
        }
        match render_parameter_name(templates[i].as_str(), prefix, context) {
            Ok(name) => {
                out.insert(templates[i].clone(), name);
                proof {
                    let prev_m = spec_rendered_names(ts.take(i as int), prefix@, ctx);
                    let next_m = spec_rendered_names(ts.take(i + 1), prefix@, ctx);
                    assert(ts.take(i + 1)[i as int] == ts[i as int]);
                    assert(ts.take(i + 1).contains(ts[i as int]));
                    assert forall|t: Seq<char>| #[trigger] next_m.contains_key(t) implies
                        out@.contains_key(t) && out@[t] == next_m[t] by {
                        if t == ts[i as int] {
                            assert(out@[t] == name@);
                        } else {
                            let w = choose|w: int|
                                0 <= w < ts.take(i + 1).len() && (#[trigger] ts.take(i + 1)[w])
                                    == t;
                            assert(w != i);
                            assert(ts.take(i as int)[w] == t);
                            assert(ts.take(i as int).contains(t));
                            assert(prev_m.contains_key(t));
                            assert(out@[t] == prev_m[t]);
                        }
                    }
                    assert forall|t: Seq<char>| #[trigger] out@.contains_key(t) implies
                        next_m.contains_key(t) by {
                        if t != ts[i as int] {
                            assert(prev_m.contains_key(t));
                            let w = choose|w: int|
                                0 <= w < i && (#[trigger] ts.take(i as int)[w]) == t;
                            assert(ts.take(i + 1)[w] == t);
                            assert(ts.take(i + 1).contains(t));
                        }
                    }
                    assert(out@ =~= next_m);
                }
                i += 1;
            },
            Err(e) => {
                return Err(e);
            },
        }
    }
    proof {
        assert(ts.take(n as int) =~= ts);
    }
    Ok(out)
}

/// The determinism law: any two association maps rendered from the same
/// template set, prefix and context are identical, byte for byte.
pub proof fn lemma_render_deterministic(
    m1: Map<Seq<char>, Seq<char>>,
    m2: Map<Seq<char>, Seq<char>>,
    templates: Seq<Seq<char>>,
    prefix: Seq<char>,
    ctx: BuildContextView,
)
    requires
        m1 == spec_rendered_names(templates, prefix, ctx),
        m2 == spec_rendered_names(templates, prefix, ctx),
    ensures
        m1 == m2,
{
}

} // verus!
