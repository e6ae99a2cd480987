//! Pages: a source file's front matter made into its attributes (title,
//! author, layout, date, permalink), its rendered content, and the path it is
//! written to.
use vstd::prelude::*;
use crate::config::Config;
use crate::date::{Date, formatted_date, parsed_date, slash_layout, ymd_layout};
use crate::error::GoethiteError;
use crate::paths;
use crate::text::opt_view;
use crate::utils::{self, Markup, markup_of_path, slug, spec_new_path};

verus! {

/// The front matter of a page, as decoded from TOML: each field may be missing.
pub struct TomlAttributes {
    pub title: Option<String>,
    pub author: Option<String>,
    pub layout: Option<String>,
    pub date: Option<String>,
}

/// The text of a page's front matter.
pub ghost struct FrontMatter {
    pub title: Option<Seq<char>>,
    pub author: Option<Seq<char>>,
    pub layout: Option<Seq<char>>,
    pub date: Option<Seq<char>>,
}

impl View for TomlAttributes {
    type V = FrontMatter;

    open spec fn view(&self) -> FrontMatter {
        FrontMatter {
            title: opt_view(self.title),
            author: opt_view(self.author),
            layout: opt_view(self.layout),
            date: opt_view(self.date),
        }
    }
}

/// The attributes of a page.
#[derive(Debug)]
pub struct Attributes {
    pub title: String,
    pub author: String,
    pub layout: String,
    pub permalink: String,
    pub prefix: Option<String>,
    pub date: Date,
}

/// The text and date of a page's attributes.
pub ghost struct AttributesView {
    pub title: Seq<char>,
    pub author: Seq<char>,
    pub layout: Seq<char>,
    pub permalink: Seq<char>,
    pub prefix: Option<Seq<char>>,
    pub date: (i32, u32, u32),
}

impl View for Attributes {
    type V = AttributesView;

    open spec fn view(&self) -> AttributesView {
        AttributesView {
            title: self.title@,
            author: self.author@,
            layout: self.layout@,
            permalink: self.permalink@,
            prefix: opt_view(self.prefix),
            date: self.date@,
        }
    }
}

/// A page of the site.
#[derive(Debug)]
pub struct Page {
    pub attributes: Attributes,
    pub content: String,
    pub path: String,
    pub markup: Markup,
}

/// The text, date and markup of a page.
pub ghost struct PageView {
    pub attributes: AttributesView,
    pub content: Seq<char>,
    pub path: Seq<char>,
    pub markup: Markup,
}

impl View for Page {
    type V = PageView;

    open spec fn view(&self) -> PageView {
        PageView {
            attributes: self.attributes@,
            content: self.content@,
            path: self.path@,
            markup: self.markup,
        }
    }
}

/// The value of `o`, or `default` where there is none.
pub open spec fn or_else(o: Option<Seq<char>>, default: Seq<char>) -> Seq<char> {
    match o {
        Some(v) => v,
        None => default,
    }
}

/// The layout of a blog post.
pub open spec fn post_layout() -> Seq<char> {
    "post"@
}

/// The layout of a page whose front matter names none.
pub open spec fn page_layout() -> Seq<char> {
    "page"@
}

/// The attributes of a page with front matter `fm`, whose file name without its
/// extension is `stem`, on a site by `author`, dated `date`. The layout is `page`
/// unless the front matter names one, the title is the file's stem unless it
/// names one, and the author the site's unless it names one. A post (layout
/// `post`) lives under the directory of its date, `YYYY/MM/DD`, at the slug of
/// its stem; any other page at its stem; both with the extension `html`.
pub open spec fn spec_attributes(
    fm: FrontMatter,
    stem: Seq<char>,
    author: Seq<char>,
    date: (i32, u32, u32),
) -> AttributesView {
    let layout = or_else(fm.layout, page_layout());
    let prefix = formatted_date(date, slash_layout());
    AttributesView {
        title: or_else(fm.title, stem),
        author: or_else(fm.author, author),
        layout: layout,
        permalink: if layout == post_layout() {
            prefix + "/"@ + slug(stem) + ".html"@
        } else {
            stem + ".html"@
        },
        prefix: if layout == post_layout() {
            Some(prefix)
        } else {
            None
        },
        date: date,
    }
}

/// `r` is what building the attributes of a page with front matter `fm` at
/// `path`, on a site by `author`, ends in: the front matter's date where it has
/// one and that date reads (`InvalidDate` where it does not read), and
/// otherwise `today` (`Other` where the day it is built on is not known); and the
/// attributes that `spec_attributes` gives for it.
pub open spec fn attributes_built(
    fm: FrontMatter,
    path: Seq<char>,
    author: Seq<char>,
    today: Option<(i32, u32, u32)>,
    r: Result<AttributesView, GoethiteError>,
) -> bool {
    match fm.date {
        Some(t) => match parsed_date(t, ymd_layout()) {
            Some(d) => r == Ok::<AttributesView, GoethiteError>(
                spec_attributes(fm, paths::file_stem_of(path).unwrap(), author, d),
            ),
            None => r matches Err(GoethiteError::InvalidDate(s)) && s@ == t,
        },
        None => match today {
            Some(d) => r == Ok::<AttributesView, GoethiteError>(
                spec_attributes(fm, paths::file_stem_of(path).unwrap(), author, d),
            ),
            None => r == Err::<AttributesView, GoethiteError>(GoethiteError::Other),
        },
    }
}

/// The day a page is built on, where it is known.
pub open spec fn day_of(today: Option<Date>) -> Option<(i32, u32, u32)> {
    match today {
        Some(d) => Some(d@),
        None => None,
    }
}

/// The attributes of the page at `path` with front matter `attrs`, on the day
/// `today` where that day is known.
fn build_attrs(attrs: TomlAttributes, path: &str, config: &Config, today: Option<Date>) -> (r: Result<
    Attributes,
    GoethiteError,
>)
    requires
        paths::file_stem_of(path@) is Some,
    ensures
        attributes_built(
            attrs@,
            path@,
            config.author@,
            day_of(today),
            match r {
                Ok(a) => Ok(a@),
                Err(e) => Err(e),
            },
        ),
{
    let ghost fm = attrs@;
    let file_stem = match paths::file_stem(path) {
        Some(s) => s,
        None => {
            assert(false);
            String::new()
        },
    };
    let layout = match attrs.layout {
        Some(l) => l,
        None => String::from_str("page"),
    };
    let title = match attrs.title {
        Some(t) => t,
        None => file_stem.clone(),
    };
    let date = match utils::parse_date_on(attrs.date, today) {
        Ok(d) => d,
        Err(e) => {
            return Err(e);
        },
    };
    let is_post = layout == String::from_str("post");
    let (prefix, permalink) = if is_post {
        let prefix = date.slash_form();
        let permalink = prefix.clone().concat("/").concat(utils::slugify(&file_stem).as_str()).concat(
            ".html",
        );
        (Some(prefix), permalink)
    } else {
        (None, file_stem.clone().concat(".html"))
    };
    let author = match attrs.author {
        Some(a) => a,
        None => config.author.clone(),
    };
    let a = Attributes { author, layout, title, date, permalink, prefix };
    assert(a@ == spec_attributes(fm, file_stem@, config.author@, date@));
    Ok(a)
}

/// `r` is what building the page at `path` with front matter `fm` and content
/// `content`, on a site by `author` with sources in `source` built into
/// `destination`, ends in: `MissingFrontMatter` where there is no front matter;
/// where there is, the attributes that `attributes_built` describes, the
/// content, the path that `spec_new_path` gives for its permalink and date
/// prefix, and the markup of its file's extension; a page whose front matter
/// gives no date is dated `today`, and ends in `Other` where that day is not known.
pub open spec fn page_built(
    fm: Option<FrontMatter>,
    content: Seq<char>,
    path: Seq<char>,
    author: Seq<char>,
    source: Seq<char>,
    destination: Seq<char>,
    today: Option<(i32, u32, u32)>,
    r: Result<PageView, GoethiteError>,
) -> bool {
    match fm {
        None => r matches Err(GoethiteError::MissingFrontMatter(p)) && p@ == path,
        Some(f) => {
            &&& attributes_built(
                f,
                path,
                author,
                today,
                match r {
                    Ok(p) => Ok(p.attributes),
                    Err(e) => Err(e),
                },
            )
            &&& r matches Ok(p) ==> {
                &&& p.content == content
                &&& p.path == spec_new_path(
                    p.attributes.permalink,
                    p.attributes.prefix,
                    source,
                    destination,
                )
                &&& Some(p.markup) == markup_of_path(path)
            }
        },
    }
}

/// The front matter of a page, where it has one.
pub open spec fn front_matter_view(attributes: Option<TomlAttributes>) -> Option<FrontMatter> {
    match attributes {
        Some(a) => Some(a@),
        None => None,
    }
}

/// The views of a page built, or its error.
pub open spec fn page_result_view(r: Result<Page, GoethiteError>) -> Result<PageView, GoethiteError> {
    match r {
        Ok(p) => Ok(p@),
        Err(e) => Err(e),
    }
}

/// The page at `path` from its front matter and its content, on the day `today`
/// where that day is known.
fn build_page(
    attributes: Option<TomlAttributes>,
    content: String,
    path: &str,
    config: &Config,
    today: Option<Date>,
) -> (r: Result<Page, GoethiteError>)
    requires
        markup_of_path(path@) is Some,
    ensures
        page_built(
            front_matter_view(attributes),
            content@,
            path@,
            config.author@,
            config.source@,
            config.destination@,
            day_of(today),
            page_result_view(r),
        ),
{
    let attrs = match attributes {
        Some(a) => a,
        None => {
            return Err(GoethiteError::MissingFrontMatter(String::from_str(path)));
        },
    };
    // A file with an extension has a stem: asking for it shows that it exists.
    let _stem = paths::file_stem(path);
    let attributes = match build_attrs(attrs, path, config, today) {
        Ok(a) => a,
        Err(e) => {
            return Err(e);
        },
    };
    let new_path = utils::new_path(attributes.permalink.as_str(), attributes.prefix.clone(), config);
    let markup = match utils::extract_markup(path) {
        Some(m) => m,
        None => {
            assert(false);
            Markup::Mustache
        },
    };
    Ok(Page { content: content, path: new_path, attributes: attributes, markup: markup })
}

impl Page {
    /// The page at `path`, a Markdown or HTML file, from its front matter and
    /// its content, on the day `today`: its attributes, its content, the path
    /// it is written to and its markup. `MissingFrontMatter` where it has no
    /// front matter; `InvalidDate` where the front matter's date does not read;
    /// dated `today` where the front matter gives no date.
    pub fn new_on(
        attributes: Option<TomlAttributes>,
        content: String,
        path: &str,
        config: &Config,
        today: Date,
    ) -> (r: Result<Page, GoethiteError>)
        requires
            markup_of_path(path@) is Some,
        ensures
            page_built(
                front_matter_view(attributes),
                content@,
                path@,
                config.author@,
                config.source@,
                config.destination@,
                Some(today@),
                page_result_view(r),
            ),
    {
        build_page(attributes, content, path, config, Some(today))
    }

    /// The page at `path`, a Markdown or HTML file, from its front matter and
    /// its content, as `new_on` builds it on today's date by the clock; where
    /// the clock reads a time whose date lies outside the years that a date can
    /// have, a page whose front matter gives no date ends in `Other`.
    pub fn new(attributes: Option<TomlAttributes>, content: String, path: &str, config: &Config) -> (r:
        Result<Page, GoethiteError>)
        requires
            markup_of_path(path@) is Some,
        ensures
            exists|today: Option<(i32, u32, u32)>|
                page_built(
                    front_matter_view(attributes),
                    content@,
                    path@,
                    config.author@,
                    config.source@,
                    config.destination@,
                    today,
                    page_result_view(r),
                ),
    {
        let today = Date::today();
        let r = build_page(attributes, content, path, config, today);
        assert(page_built(
            front_matter_view(attributes),
            content@,
            path@,
            config.author@,
            config.source@,
            config.destination@,
            day_of(today),
            page_result_view(r),
        ));
        r
    }

    /// The page at `path` as `new` builds it, where `path` is a file of a markup
    /// that pages are written in; `None` where it is not.
    pub fn try_new(
        attributes: Option<TomlAttributes>,
        content: String,
        path: &str,
        config: &Config,
    ) -> (r: Option<Result<Page, GoethiteError>>)
        ensures
            r is None <==> markup_of_path(path@) is None,
            r matches Some(res) ==> exists|today: Option<(i32, u32, u32)>|
                page_built(
                    front_matter_view(attributes),
                    content@,
                    path@,
                    config.author@,
                    config.source@,
                    config.destination@,
                    today,
                    page_result_view(res),
                ),
    {
        match utils::extract_markup(path) {
            Some(_) => Some(Page::new(attributes, content, path, config)),
            None => None,
        }
    }

    /// Whether this page is a blog post: one with the layout `post`.
    pub fn is_post(&self) -> (r: bool)
        ensures
            r == (self.attributes.layout@ == post_layout()),
    {
        self.attributes.layout == String::from_str("post")
    }

    /// A copy of this page.
    pub fn duplicate(&self) -> (r: Page)
        ensures
            r@ == self@,
    {
        Page {
            attributes: Attributes {
                title: self.attributes.title.clone(),
                author: self.attributes.author.clone(),
                layout: self.attributes.layout.clone(),
                permalink: self.attributes.permalink.clone(),
                prefix: match &self.attributes.prefix {
                    Some(p) => Some(p.clone()),
                    None => None,
                },
                date: self.attributes.date,
            },
            content: self.content.clone(),
            path: self.path.clone(),
            markup: self.markup,
        }
    }
}

impl Attributes {
    /// The page's date as templates show it: `DD Mon YYYY`.
    pub fn display_date(&self) -> (r: String)
        ensures
            r@ == crate::date::formatted_date(self.date@, crate::date::display_layout()),
    {
        self.date.display_form()
    }
}


/// A page built from front matter is a blog post exactly when it has a date
/// prefix, and then its permalink is that prefix, a `/`, the slug of its file's
/// stem and `.html`.
pub proof fn law_post_iff_prefix(
    fm: FrontMatter,
    content: Seq<char>,
    path: Seq<char>,
    author: Seq<char>,
    source: Seq<char>,
    destination: Seq<char>,
    today: Option<(i32, u32, u32)>,
    p: PageView,
)
    requires
        page_built(Some(fm), content, path, author, source, destination, today, Ok(p)),
    ensures
        (p.attributes.layout == post_layout()) <==> p.attributes.prefix is Some,
        p.attributes.prefix matches Some(prefix) ==> p.attributes.permalink == prefix + "/"@ + slug(
            paths::file_stem_of(path).unwrap(),
        ) + ".html"@,
        p.attributes.prefix matches Some(prefix) ==> prefix == formatted_date(
            p.attributes.date,
            slash_layout(),
        ),
{
}

/// The layout, title, author and date of a page are those of its front matter
/// where it names them, and otherwise `page`, the stem of its file's name, the
/// site's author and the day it is built on.
pub proof fn law_attribute_defaults(
    fm: FrontMatter,
    content: Seq<char>,
    path: Seq<char>,
    author: Seq<char>,
    source: Seq<char>,
    destination: Seq<char>,
    today: Option<(i32, u32, u32)>,
    p: PageView,
)
    requires
        page_built(Some(fm), content, path, author, source, destination, today, Ok(p)),
    ensures
        p.attributes.layout == or_else(fm.layout, page_layout()),
        p.attributes.title == or_else(fm.title, paths::file_stem_of(path).unwrap()),
        p.attributes.author == or_else(fm.author, author),
        fm.date matches Some(t) ==> parsed_date(t, ymd_layout()) == Some(p.attributes.date),
        fm.date is None ==> today == Some(p.attributes.date),
{
}

/// A page built from front matter whose layout is not `post` has no date
/// prefix, and its permalink is the stem of its file's name followed by
/// `.html`, whatever title its front matter gives.
pub proof fn law_page_permalink_is_stem(
    fm: FrontMatter,
    content: Seq<char>,
    path: Seq<char>,
    author: Seq<char>,
    source: Seq<char>,
    destination: Seq<char>,
    today: Option<(i32, u32, u32)>,
    p: PageView,
)
    requires
        page_built(Some(fm), content, path, author, source, destination, today, Ok(p)),
        p.attributes.layout != post_layout(),
    ensures
        p.attributes.prefix is None,
        p.attributes.permalink == paths::file_stem_of(path).unwrap() + ".html"@,
        p.path == spec_new_path(p.attributes.permalink, None, source, destination),
{
}

} // verus!
