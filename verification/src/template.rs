use vstd::prelude::*;
use crate::config::Config;
use crate::markdown::{
    date_of, extract_date, extract_title, generate_html, markdown_events, markdown_html,
    title_of, NO_OPTIONS, POST_OPTIONS,
};
use crate::posts::{
    dates_descending, lemma_sort_descending, lemma_sort_permutes, sort_by_date, sort_entries,
    PostEntry,
};

verus! {

#[verifier::external_type_specification]
#[verifier::external_body]
pub struct ExTemplate(liquid::Template);

#[verifier::external_type_specification]
#[verifier::external_body]
pub struct ExLiquidError(liquid::Error);

/// A string variable of a page template.
pub struct Field {
    pub key: String,
    pub value: String,
}

/// A list variable of a page template, whose items are objects of string fields.
pub struct ListField {
    pub key: String,
    pub items: Vec<Vec<Field>>,
}

/// The variables a page template is rendered with.
pub struct TemplateData {
    pub fields: Vec<Field>,
    pub lists: Vec<ListField>,
}

/// A field as a key and a value.
pub open spec fn field_view(f: Field) -> (Seq<char>, Seq<char>) {
    (f.key@, f.value@)
}

/// The fields of an object.
pub open spec fn object_view(o: Vec<Field>) -> Seq<(Seq<char>, Seq<char>)> {
    o@.map_values(|f: Field| field_view(f))
}

/// A list variable as its key and its items.
pub open spec fn list_view(l: ListField) -> (Seq<char>, Seq<Seq<(Seq<char>, Seq<char>)>>) {
    (l.key@, l.items@.map_values(|o: Vec<Field>| object_view(o)))
}

/// `TemplateData` as a value of spec mode.
pub struct TemplateDataView {
    pub fields: Seq<(Seq<char>, Seq<char>)>,
    pub lists: Seq<(Seq<char>, Seq<Seq<(Seq<char>, Seq<char>)>>)>,
}

impl View for TemplateData {
    type V = TemplateDataView;

    open spec fn view(&self) -> TemplateDataView {
        TemplateDataView {
            fields: object_view(self.fields),
            lists: self.lists@.map_values(|l: ListField| list_view(l)),
        }
    }
}

/// Why a page could not be made from its template.
pub enum TemplateError {
    /// The template is not valid Liquid.
    Parse(liquid::Error),
    /// Rendering the template failed.
    Render(liquid::Error),
}

/// Whether the Liquid parser with the standard library accepts `src` as a template.
pub uninterp spec fn liquid_accepts(src: Seq<char>) -> bool;

/// Builds a parser with `liquid::ParserBuilder::with_stdlib()` and parses `src` with it.
///
/// Trusted: whether parsing succeeds depends on `src` alone, so it is named. Of the template
/// itself nothing is stated: the value is opaque and only handed on to `render_liquid`.
#[verifier::external_body]
fn parse_liquid(src: &str) -> (r: Result<liquid::Template, liquid::Error>)
    ensures
        r is Ok <==> liquid_accepts(src@),
{
    liquid::ParserBuilder::with_stdlib().build()?.parse(src)
}

/// Renders `template` with `liquid::Template::render`, its globals being `data`: each field
/// a string scalar, each list an array of objects of string scalars.
///
/// Trusted, and nothing is stated of the result: a template may ask for the current date
/// (`"now" | date`), so the text depends on the time of the call, not on the arguments alone.
#[verifier::external_body]
fn render_liquid(template: &liquid::Template, data: &TemplateData) -> (r: Result<String, liquid::Error>) {
    let scalar = |f: &Field| (f.key.clone().into(), liquid::model::Value::scalar(f.value.clone()));
    let mut globals: liquid::Object = data.fields.iter().map(scalar).collect();
    for l in &data.lists {
        let items = l.items.iter().map(|o| liquid::model::Value::Object(o.iter().map(scalar).collect()));
        globals.insert(l.key.clone().into(), liquid::model::Value::Array(items.collect()));
    }
    template.render(&globals)
}

/// Parses a page template; fails exactly when the Liquid parser refuses `src`.
pub fn parse_template(src: &str) -> (r: Result<liquid::Template, TemplateError>)
    ensures
        r is Ok <==> liquid_accepts(src@),
        r matches Err(e) ==> e is Parse,
{
    match parse_liquid(src) {
        Ok(t) => Ok(t),
        Err(e) => Err(TemplateError::Parse(e)),
    }
}

/// Renders a parsed template with `data`; a failure of the renderer is a `Render` error.
pub fn render_page(template: &liquid::Template, data: &TemplateData) -> (r: Result<String, TemplateError>)
    ensures
        r matches Err(e) ==> e is Render,
{
    page_result(render_liquid(template, data))
}

/// The outcome of a page from what the renderer gave back: the rendered text as it is,
/// or the renderer's error as a `Render` error.
pub fn page_result(rendered: Result<String, liquid::Error>) -> (r: Result<String, TemplateError>)
    ensures
        match rendered {
            Ok(s) => r == Ok::<String, TemplateError>(s),
            Err(e) => r == Err::<String, TemplateError>(TemplateError::Render(e)),
        },
{
    match rendered {
        Ok(s) => Ok(s),
        Err(e) => Err(TemplateError::Render(e)),
    }
}

/// A string field.
fn field(key: &str, value: String) -> (r: Field)
    ensures
        field_view(r) == (key@, value@),
{
    Field { key: String::from_str(key), value }
}

/// The variables of a post page made from the markdown `content`: `title` and `date` as the
/// metadata scan finds them, `content` the HTML of the post.
pub open spec fn post_data_of(content: Seq<char>) -> TemplateDataView {
    TemplateDataView {
        fields: seq![
            ("title"@, title_of(markdown_events(content, NO_OPTIONS))),
            ("date"@, date_of(markdown_events(content, NO_OPTIONS))),
            ("content"@, markdown_html(content, POST_OPTIONS)),
        ],
        lists: seq![],
    }
}

/// The variables of the page of the post whose markdown is `content`.
pub fn post_page(content: &str) -> (r: TemplateData)
    ensures
        r@ == post_data_of(content@),
{
    let title = extract_title(content);
    let date = extract_date(content);
    let html = generate_html(content);
    let mut fields: Vec<Field> = Vec::new();
    fields.push(field("title", title));
    fields.push(field("date", date));
    fields.push(field("content", html));
    let r = TemplateData { fields, lists: Vec::new() };
    assert(r@.fields =~= post_data_of(content@).fields);
    assert(r@.lists =~= post_data_of(content@).lists);
    r
}

/// The object that stands for one post in the list page: its date, title and path.
pub open spec fn entry_object(e: PostEntry) -> Seq<(Seq<char>, Seq<char>)> {
    seq![("date"@, e.date@), ("title"@, e.title@), ("path"@, e.path@)]
}

/// The variables of the list page: the blog's title, description and author, and `list`,
/// the posts newest first (see `sort_by_date`).
pub open spec fn list_data_of(config: Config, entries: Seq<PostEntry>) -> TemplateDataView {
    TemplateDataView {
        fields: seq![
            ("blogtitle"@, config.blogtitle@),
            ("description"@, config.description@),
            ("author"@, config.author@),
        ],
        lists: seq![("list"@, sort_by_date(entries).map_values(|e: PostEntry| entry_object(e)))],
    }
}

/// The variables of the list page of the blog configured by `config` with the posts `entries`.
pub fn list_page(config: &Config, entries: Vec<PostEntry>) -> (r: TemplateData)
    ensures
        r@ == list_data_of(*config, entries@),
{
    let ghost orig = entries@;
    let sorted = sort_entries(entries);
    let ghost s = sorted@;
    let mut rest = sorted;
    let mut items: Vec<Vec<Field>> = Vec::new();
    let ghost mut i: int = 0;
    assert(s.skip(0) =~= s);
    while rest.len() > 0
        invariant
            0 <= i <= s.len(),
            rest@ == s.skip(i),
            items@.len() == i,
            forall|k: int| 0 <= k < i ==> object_view(#[trigger] items@[k]) == entry_object(s[k]),
        decreases rest.len(),
    {
        let e = rest.remove(0);
        assert(e == s[i]);
        assert(s.skip(i).drop_first() =~= s.skip(i + 1));
        let mut obj: Vec<Field> = Vec::new();
        obj.push(field("date", e.date));
        obj.push(field("title", e.title));
        obj.push(field("path", e.path));
        assert(object_view(obj) =~= entry_object(s[i]));
        items.push(obj);
        proof {
            i = i + 1;
        }
    }
    let mut fields: Vec<Field> = Vec::new();
    fields.push(field("blogtitle", config.blogtitle.clone()));
    fields.push(field("description", config.description.clone()));
    fields.push(field("author", config.author.clone()));
    let mut lists: Vec<ListField> = Vec::new();
    lists.push(ListField { key: String::from_str("list"), items });
    let r = TemplateData { fields, lists };
    proof {
        let want = list_data_of(*config, orig);
        assert(s == sort_by_date(orig));
        assert(r@.fields =~= want.fields);
        let l = lists@[0];
        assert(list_view(l).1 =~= s.map_values(|e: PostEntry| entry_object(e)));
        assert(list_view(l) == want.lists[0]);
        assert(r@.lists =~= want.lists);
    }
    r
}

/// The list page holds one object per post, no more and no fewer: the list variable is
/// named `list`, and its objects stand for the posts rearranged newest first, each post
/// as many times as it was given.
pub proof fn lemma_list_has_every_post(config: Config, entries: Seq<PostEntry>)
    ensures
        list_data_of(config, entries).lists.len() == 1,
        list_data_of(config, entries).lists[0].0 == "list"@,
        list_data_of(config, entries).lists[0].1.len() == entries.len(),
        exists|r: Seq<PostEntry>|
            {
                &&& r.to_multiset() == entries.to_multiset()
                &&& r.len() == entries.len()
                &&& dates_descending(r)
                &&& forall|k: int|
                    0 <= k < r.len() ==> #[trigger] list_data_of(config, entries).lists[0].1[k]
                        == entry_object(r[k])
            },
{
    let r = sort_by_date(entries);
    lemma_sort_descending(entries);
    lemma_sort_permutes(entries);
    r.to_multiset_ensures();
    entries.to_multiset_ensures();
    assert(r.len() == entries.len());
    let l = list_data_of(config, entries).lists[0].1;
    assert(l == r.map_values(|e: PostEntry| entry_object(e)));
    assert forall|k: int| 0 <= k < r.len() implies #[trigger] list_data_of(config, entries).lists[0].1[k]
        == entry_object(r[k]) by {
        assert(l[k] == entry_object(r[k]));
    }
}

} // verus!
