//! Rendering the XHTML pages of a book from Tera templates.
use vstd::prelude::*;

use crate::text::{concat_text, push_str, string_lines_view};

verus! {

/// A value placed in a template context, by its view.
pub enum TemplateValue {
    Text(Seq<char>),
    OptionalText(Option<Seq<char>>),
    TextList(Seq<Seq<char>>),
    Number(u32),
}

/// `tera::Context`, the values a template is rendered with, held opaque.
#[verifier::external_type_specification]
#[verifier::external_body]
pub struct ExTeraContext(tera::Context);

/// `tera::Tera`, a set of parsed templates, held opaque.
#[verifier::external_type_specification]
#[verifier::external_body]
pub struct ExTera(tera::Tera);

/// The values a `tera::Context` holds, by name (a later insert under a name replaces the
/// earlier one).
pub uninterp spec fn context_entries(c: tera::Context) -> Map<Seq<char>, TemplateValue>;

/// The templates that a `tera::Tera` holds, by name.
pub uninterp spec fn tera_templates(t: tera::Tera) -> Map<Seq<char>, Seq<char>>;

/// What `tera::Tera::add_raw_template` gives on a fresh `Tera` for a template's name and source.
pub uninterp spec fn template_parse_outcome(name: Seq<char>, source: Seq<char>) -> Result<(), Seq<char>>;

/// What `tera::Tera::render` gives for the templates held, the name rendered and the context.
/// With tera's `preserve_order` feature its maps keep insertion order, so rendering depends on
/// nothing else.
pub uninterp spec fn render_outcome(
    templates: Map<Seq<char>, Seq<char>>,
    name: Seq<char>,
    entries: Map<Seq<char>, TemplateValue>,
) -> Result<Seq<char>, Seq<char>>;

pub open spec fn optional_text_view(o: Option<String>) -> Option<Seq<char>> {
    match o {
        Some(s) => Some(s@),
        None => None,
    }
}

/// A context holding nothing.
pub open spec fn no_entries() -> Map<Seq<char>, TemplateValue> {
    Map::empty()
}

/// An empty `tera::Context` (`Context::new`). Trusted: it holds no entries.
#[verifier::external_body]
fn new_context() -> (c: tera::Context)
    ensures
        context_entries(c) == no_entries(),
{
    tera::Context::new()
}

/// A value to place in a template context.
pub enum ContextValue {
    Text(String),
    OptionalText(Option<String>),
    TextList(Vec<String>),
    Number(u32),
}

pub open spec fn context_value_view(v: ContextValue) -> TemplateValue {
    match v {
        ContextValue::Text(s) => TemplateValue::Text(s@),
        ContextValue::OptionalText(o) => TemplateValue::OptionalText(optional_text_view(o)),
        ContextValue::TextList(l) => TemplateValue::TextList(string_lines_view(l@)),
        ContextValue::Number(n) => TemplateValue::Number(n),
    }
}

/// `Context::insert`, with the value serialized as a string, a string or null, a list of
/// strings, or a number. Trusted: the context then holds the value under `key`, replacing
/// any earlier value there, and is otherwise unchanged.
#[verifier::external_body]
fn insert_value(c: &mut tera::Context, key: &str, value: &ContextValue)
    ensures
        context_entries(*final(c)) == context_entries(*old(c)).insert(key@, context_value_view(*value)),
{
    match value {
        ContextValue::Text(s) => c.insert(key.to_string(), s),
        ContextValue::OptionalText(o) => c.insert(key.to_string(), o),
        ContextValue::TextList(l) => c.insert(key.to_string(), l),
        ContextValue::Number(n) => c.insert(key.to_string(), n),
    }
}

/// `Tera::add_raw_template` on a fresh `Tera::default()`. Trusted: it succeeds as
/// `template_parse_outcome` names, and then holds exactly that template; its error's text
/// is returned otherwise.
#[verifier::external_body]
fn tera_with_template(name: &str, source: &str) -> (r: Result<tera::Tera, String>)
    ensures
        match r {
            Ok(t) => template_parse_outcome(name@, source@) is Ok && tera_templates(t) == Map::<
                Seq<char>,
                Seq<char>,
            >::empty().insert(name@, source@),
            Err(e) => template_parse_outcome(name@, source@) == Err::<(), Seq<char>>(e@),
        },
{
    let mut tera = tera::Tera::default();
    match tera.add_raw_template(name, source) {
        Ok(()) => Ok(tera),
        Err(e) => Err(e.to_string()),
    }
}

/// `Tera::render`. Trusted: the outcome is the one `render_outcome` names, with the error's
/// text on failure.
#[verifier::external_body]
fn tera_render(t: &tera::Tera, name: &str, c: &tera::Context) -> (r: Result<String, String>)
    ensures
        match r {
            Ok(s) => render_outcome(tera_templates(*t), name@, context_entries(*c)) == Ok::<
                Seq<char>,
                Seq<char>,
            >(s@),
            Err(e) => render_outcome(tera_templates(*t), name@, context_entries(*c)) == Err::<
                Seq<char>,
                Seq<char>,
            >(e@),
        },
{
    match t.render(name, c) {
        Ok(s) => Ok(s),
        Err(e) => Err(e.to_string()),
    }
}

/// The page that template `source`, registered as `name`, renders for `entries`; or the
/// message for a template that does not load or does not render.
pub open spec fn rendered(name: Seq<char>, source: Seq<char>, entries: Map<Seq<char>, TemplateValue>) -> Result<
    Seq<char>,
    Seq<char>,
> {
    match template_parse_outcome(name, source) {
        Err(e) => Err("加载模板 "@ + name + " 失败: "@ + e),
        Ok(_) => match render_outcome(Map::empty().insert(name, source), name, entries) {
            Err(e) => Err("渲染模板 "@ + name + " 失败: "@ + e),
            Ok(s) => Ok(s),
        },
    }
}

pub open spec fn result_view(r: Result<String, String>) -> Result<Seq<char>, Seq<char>> {
    match r {
        Ok(s) => Ok(s@),
        Err(e) => Err(e@),
    }
}

/// Renders template `source`, registered as `name`, with the context `c`.
fn render_template(name: &str, source: &str, c: &tera::Context) -> (r: Result<String, String>)
    ensures
        result_view(r) == rendered(name@, source@, context_entries(*c)),
{
    let tera = match tera_with_template(name, source) {
        Ok(t) => t,
        Err(e) => {
            let mut m = concat_text("加载模板 ", name);
            push_str(&mut m, " 失败: ");
            push_str(&mut m, e.as_str());
            return Err(m);
        },
    };
    match tera_render(&tera, name, c) {
        Ok(s) => Ok(s),
        Err(e) => {
            let mut m = concat_text("渲染模板 ", name);
            push_str(&mut m, " 失败: ");
            push_str(&mut m, e.as_str());
            Err(m)
        },
    }
}

/// What a chapter page shows.
pub struct ChapterRenderContext {
    pub chapter_id: String,
    pub title: String,
    pub variant_class: String,
    pub header_image_href: String,
    pub header_ornament_href: Option<String>,
    pub footer_ornament_href: Option<String>,
    pub paragraphs: Vec<String>,
}

/// What a cover page shows.
pub struct CoverRenderContext {
    pub title: String,
    pub cover_image_href: String,
    pub width: u32,
    pub height: u32,
}

/// The context of a chapter page, by name.
pub open spec fn chapter_entries_of(
    chapter_id: Seq<char>,
    title: Seq<char>,
    variant_class: Seq<char>,
    header_image_href: Seq<char>,
    header_ornament_href: Option<Seq<char>>,
    footer_ornament_href: Option<Seq<char>>,
    paragraphs: Seq<Seq<char>>,
) -> Map<Seq<char>, TemplateValue> {
    Map::empty().insert("chapter_id"@, TemplateValue::Text(chapter_id)).insert(
        "title"@,
        TemplateValue::Text(title),
    ).insert("variant_class"@, TemplateValue::Text(variant_class)).insert(
        "header_image_href"@,
        TemplateValue::Text(header_image_href),
    ).insert("header_ornament_href"@, TemplateValue::OptionalText(header_ornament_href)).insert(
        "footer_ornament_href"@,
        TemplateValue::OptionalText(footer_ornament_href),
    ).insert("paragraphs"@, TemplateValue::TextList(paragraphs))
}

pub open spec fn chapter_entries(ctx: ChapterRenderContext) -> Map<Seq<char>, TemplateValue> {
    chapter_entries_of(
        ctx.chapter_id@,
        ctx.title@,
        ctx.variant_class@,
        ctx.header_image_href@,
        optional_text_view(ctx.header_ornament_href),
        optional_text_view(ctx.footer_ornament_href),
        string_lines_view(ctx.paragraphs@),
    )
}

/// The context of a cover page, by name.
pub open spec fn cover_entries_of(title: Seq<char>, cover_image_href: Seq<char>, width: u32, height: u32) -> Map<
    Seq<char>,
    TemplateValue,
> {
    Map::empty().insert("title"@, TemplateValue::Text(title)).insert(
        "cover_image_href"@,
        TemplateValue::Text(cover_image_href),
    ).insert("width"@, TemplateValue::Number(width)).insert("height"@, TemplateValue::Number(height))
}

pub open spec fn cover_entries(ctx: CoverRenderContext) -> Map<Seq<char>, TemplateValue> {
    cover_entries_of(ctx.title@, ctx.cover_image_href@, ctx.width, ctx.height)
}

fn copy_optional(o: &Option<String>) -> (r: Option<String>)
    ensures
        optional_text_view(r) == optional_text_view(*o),
{
    match o {
        Some(s) => Some(s.clone()),
        None => None,
    }
}

fn copy_list(v: &Vec<String>) -> (r: Vec<String>)
    ensures
        string_lines_view(r@) == string_lines_view(v@),
{
    let mut r: Vec<String> = Vec::new();
    let mut i: usize = 0;
    while i < v.len()
        invariant
            i <= v.len(),
            string_lines_view(r@) == string_lines_view(v@.take(i as int)),
        decreases v.len() - i,
    {
        let ghost before = r@;
        let x = v[i].clone();
        r.push(x);
        assert(string_lines_view(r@) =~= string_lines_view(before).push(v@[i as int]@));
        assert(v@.take(i + 1) =~= v@.take(i as int).push(v@[i as int]));
        assert(string_lines_view(v@.take(i + 1)) =~= string_lines_view(v@.take(i as int)).push(v@[i as int]@));
        i = i + 1;
    }
    assert(v@.take(v.len() as int) =~= v@);
    r
}

/// Renders a chapter page with the chapter template `source`.
pub fn render_chapter_xhtml(source: &str, ctx: &ChapterRenderContext) -> (r: Result<String, String>)
    ensures
        result_view(r) == rendered("chapter.xhtml"@, source@, chapter_entries(*ctx)),
{
    let mut c = new_context();
    insert_value(&mut c, "chapter_id", &ContextValue::Text(ctx.chapter_id.clone()));
    insert_value(&mut c, "title", &ContextValue::Text(ctx.title.clone()));
    insert_value(&mut c, "variant_class", &ContextValue::Text(ctx.variant_class.clone()));
    insert_value(&mut c, "header_image_href", &ContextValue::Text(ctx.header_image_href.clone()));
    insert_value(&mut c, "header_ornament_href", &ContextValue::OptionalText(copy_optional(&ctx.header_ornament_href)));
    insert_value(&mut c, "footer_ornament_href", &ContextValue::OptionalText(copy_optional(&ctx.footer_ornament_href)));
    insert_value(&mut c, "paragraphs", &ContextValue::TextList(copy_list(&ctx.paragraphs)));
    assert(context_entries(c) =~= chapter_entries(*ctx));
    render_template("chapter.xhtml", source, &c)
}

/// Renders a cover page with the cover template `source`.
pub fn render_cover_xhtml(source: &str, ctx: &CoverRenderContext) -> (r: Result<String, String>)
    ensures
        result_view(r) == rendered("cover.xhtml"@, source@, cover_entries(*ctx)),
{
    let mut c = new_context();
    insert_value(&mut c, "title", &ContextValue::Text(ctx.title.clone()));
    insert_value(&mut c, "cover_image_href", &ContextValue::Text(ctx.cover_image_href.clone()));
    insert_value(&mut c, "width", &ContextValue::Number(ctx.width));
    insert_value(&mut c, "height", &ContextValue::Number(ctx.height));
    assert(context_entries(c) =~= cover_entries(*ctx));
    render_template("cover.xhtml", source, &c)
}

} // verus!
