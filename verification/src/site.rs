//! The site as a whole: which source entries are skipped, built, used as
//! templates or copied; the templates by name; the blog posts, newest first;
//! and the template that each page is rendered with.
use vstd::prelude::*;
use crate::config::Config;
use crate::date::date_before;
use crate::error::GoethiteError;
use crate::page::{Page, PageView, post_layout};
use crate::text;
use crate::utils::{self, Markup, markup_of_path};

verus! {

/// The views of a sequence of pages.
pub open spec fn page_views(pages: Seq<Page>) -> Seq<PageView> {
    pages.map_values(|p: Page| p@)
}

/// `p` is a blog post: its layout is `post`.
pub open spec fn is_post_view(p: PageView) -> bool {
    p.attributes.layout == post_layout()
}

/// The blog posts among `pages`, in their order.
pub open spec fn posts_of(pages: Seq<PageView>) -> Seq<PageView>
    decreases pages.len(),
{
    if pages.len() == 0 {
        pages
    } else if is_post_view(pages.last()) {
        posts_of(pages.drop_last()).push(pages.last())
    } else {
        posts_of(pages.drop_last())
    }
}

/// The pages of `s` dated `d`, in their order.
pub open spec fn dated(s: Seq<PageView>, d: (i32, u32, u32)) -> Seq<PageView>
    decreases s.len(),
{
    if s.len() == 0 {
        s
    } else if s.last().attributes.date == d {
        dated(s.drop_last(), d).push(s.last())
    } else {
        dated(s.drop_last(), d)
    }
}

/// `sorted` with `x` put in after every page that is not older than it.
pub open spec fn insert_by_date(sorted: Seq<PageView>, x: PageView) -> Seq<PageView>
    decreases sorted.len(),
{
    if sorted.len() == 0 {
        seq![x]
    } else if !date_before(sorted.last().attributes.date, x.attributes.date) {
        sorted.push(x)
    } else {
        insert_by_date(sorted.drop_last(), x).push(sorted.last())
    }
}

/// `s` sorted newest first, pages of the same date in their order in `s`.
pub open spec fn sort_by_date(s: Seq<PageView>) -> Seq<PageView>
    decreases s.len(),
{
    if s.len() == 0 {
        s
    } else {
        insert_by_date(sort_by_date(s.drop_last()), s.last())
    }
}

/// The blog posts of a site with pages `pages`: newest first, and posts of the
/// same date in the order of the pages.
pub open spec fn spec_posts(pages: Seq<PageView>) -> Seq<PageView> {
    sort_by_date(posts_of(pages))
}

/// `s` is sorted newest first.
pub open spec fn newest_first(s: Seq<PageView>) -> bool {
    forall|i: int, j: int|
        0 <= i < j < s.len() ==> !date_before(#[trigger] s[i].attributes.date, #[trigger] s[j].attributes.date)
}

/// The blog posts among `pages`, newest first; posts of the same date keep
/// their order.
pub fn collect_posts(pages: &Vec<Page>) -> (r: Vec<Page>)
    ensures
        page_views(r@) == spec_posts(page_views(pages@)),
{
    let mut posts: Vec<Page> = Vec::new();
    let n = pages.len();
    for i in 0..n
        invariant
            n == pages@.len(),
            page_views(posts@) == sort_by_date(posts_of(page_views(pages@).take(i as int))),
    {
        assert(page_views(pages@).take(i + 1).drop_last() =~= page_views(pages@).take(i as int));
        assert(page_views(pages@).take(i + 1).last() == pages@[i as int]@);
        let ghost before = page_views(pages@).take(i as int);
        let ghost after = page_views(pages@).take(i + 1);
        if pages[i].is_post() {
            let p = pages[i].duplicate();
            let ghost v = page_views(posts@);
            let mut j = posts.len();
            assert(v.take(j as int) =~= v);
            assert(v.skip(j as int) =~= Seq::<PageView>::empty());
            while j > 0 && posts[j - 1].attributes.date.is_before(&p.attributes.date)
                invariant
                    j <= posts@.len(),
                    v == page_views(posts@),
                    insert_by_date(v, p@) == insert_by_date(v.take(j as int), p@) + v.skip(j as int),
                decreases j,
            {
                assert(v.take(j as int).drop_last() =~= v.take(j - 1));
                assert(v.take(j as int).last() == v[j - 1]);
                assert(v.skip(j - 1) =~= seq![v[j - 1]] + v.skip(j as int));
                assert(insert_by_date(v.take(j - 1), p@).push(v[j - 1]) + v.skip(j as int)
                    =~= insert_by_date(v.take(j - 1), p@) + v.skip(j - 1));
                j = j - 1;
            }
            if j > 0 {
                assert(v.take(j as int).last() == v[j - 1]);
            }
            assert(insert_by_date(v.take(j as int), p@) =~= v.take(j as int).push(p@));
            let ghost pv = p@;
            posts.insert(j, p);
            assert(page_views(posts@) =~= v.take(j as int).push(pv) + v.skip(j as int));
            assert(posts_of(after) == posts_of(before).push(pv));
            assert(posts_of(before).push(pv).drop_last() =~= posts_of(before));
            assert(sort_by_date(posts_of(after)) == insert_by_date(sort_by_date(posts_of(before)), pv));
        } else {
            assert(posts_of(after) == posts_of(before));
        }
    }
    assert(page_views(pages@).take(n as int) =~= page_views(pages@));
    posts
}


proof fn lemma_insert_members(s: Seq<PageView>, x: PageView)
    ensures
        insert_by_date(s, x).len() == s.len() + 1,
        forall|k: int|
            0 <= k < s.len() + 1 ==> #[trigger] insert_by_date(s, x)[k] == x || s.contains(
                insert_by_date(s, x)[k],
            ),
    decreases s.len(),
{
    if s.len() == 0 {
    } else if !date_before(s.last().attributes.date, x.attributes.date) {
        let r = insert_by_date(s, x);
        assert forall|k: int| 0 <= k < s.len() + 1 implies #[trigger] r[k] == x || s.contains(r[k]) by {
            if k < s.len() {
                assert(r[k] == s[k]);
            }
        }
    } else {
        let dl = s.drop_last();
        lemma_insert_members(dl, x);
        let r = insert_by_date(s, x);
        assert forall|k: int| 0 <= k < s.len() + 1 implies #[trigger] r[k] == x || s.contains(r[k]) by {
            if k < s.len() {
                let e = insert_by_date(dl, x)[k];
                assert(r[k] == e);
                if e != x {
                    let m = choose|m: int| 0 <= m < dl.len() && dl[m] == e;
                    assert(s[m] == e);
                }
            } else {
                assert(r[k] == s[s.len() - 1]);
            }
        }
    }
}

proof fn lemma_insert_newest_first(s: Seq<PageView>, x: PageView)
    requires
        newest_first(s),
    ensures
        newest_first(insert_by_date(s, x)),
    decreases s.len(),
{
    if s.len() == 0 {
    } else if !date_before(s.last().attributes.date, x.attributes.date) {
        let r = insert_by_date(s, x);
        assert forall|i: int, j: int| 0 <= i < j < r.len() implies !date_before(
            #[trigger] r[i].attributes.date,
            #[trigger] r[j].attributes.date,
        ) by {
            if j == s.len() {
                assert(r[i] == s[i]);
                if i < s.len() - 1 {
                    assert(!date_before(s[i].attributes.date, s[s.len() - 1].attributes.date));
                }
            } else {
                assert(r[i] == s[i] && r[j] == s[j]);
            }
        }
    } else {
        let dl = s.drop_last();
        let last = s.last();
        assert(newest_first(dl)) by {
            assert forall|i: int, j: int| 0 <= i < j < dl.len() implies !date_before(
                #[trigger] dl[i].attributes.date,
                #[trigger] dl[j].attributes.date,
            ) by {
                assert(dl[i] == s[i] && dl[j] == s[j]);
            }
        }
        lemma_insert_newest_first(dl, x);
        lemma_insert_members(dl, x);
        let t = insert_by_date(dl, x);
        let r = insert_by_date(s, x);
        assert forall|i: int, j: int| 0 <= i < j < r.len() implies !date_before(
            #[trigger] r[i].attributes.date,
            #[trigger] r[j].attributes.date,
        ) by {
            if j == t.len() {
                assert(r[j] == last);
                assert(r[i] == t[i]);
                if t[i] != x {
                    assert(dl.contains(t[i]));
                    let m = choose|m: int| 0 <= m < dl.len() && dl[m] == t[i];
                    assert(s[m] == t[i]);
                    assert(!date_before(s[m].attributes.date, s[s.len() - 1].attributes.date));
                }
            } else {
                assert(r[i] == t[i] && r[j] == t[j]);
            }
        }
    }
}

proof fn lemma_insert_multiset(s: Seq<PageView>, x: PageView)
    ensures
        insert_by_date(s, x).to_multiset() =~= s.to_multiset().insert(x),
    decreases s.len(),
{
    broadcast use vstd::seq_lib::to_multiset_build;
    broadcast use vstd::multiset::group_multiset_axioms;

    if s.len() == 0 {
        assert(s.push(x) =~= seq![x]);
    } else if !date_before(s.last().attributes.date, x.attributes.date) {
    } else {
        let dl = s.drop_last();
        lemma_insert_multiset(dl, x);
        assert(dl.push(s.last()) =~= s);
    }
}

proof fn lemma_insert_dated(s: Seq<PageView>, x: PageView, d: (i32, u32, u32))
    ensures
        dated(insert_by_date(s, x), d) == dated(s, d) + (if x.attributes.date == d {
            seq![x]
        } else {
            Seq::empty()
        }),
    decreases s.len(),
{
    if s.len() == 0 {
        assert(seq![x].drop_last() =~= Seq::<PageView>::empty());
        assert(seq![x].last() == x);
        assert(dated(seq![x].drop_last(), d) =~= Seq::<PageView>::empty());
        assert(s =~= Seq::<PageView>::empty());
        assert(dated(seq![x], d) =~= dated(s, d) + (if x.attributes.date == d {
            seq![x]
        } else {
            Seq::empty()
        }));
    } else if !date_before(s.last().attributes.date, x.attributes.date) {
        assert(s.push(x).drop_last() =~= s);
        assert(dated(s.push(x), d) =~= dated(s, d) + (if x.attributes.date == d {
            seq![x]
        } else {
            Seq::empty()
        }));
    } else {
        let dl = s.drop_last();
        let last = s.last();
        lemma_insert_dated(dl, x, d);
        let t = insert_by_date(dl, x);
        assert(t.push(last).drop_last() =~= t);
        assert(dated(insert_by_date(s, x), d) =~= dated(s, d) + (if x.attributes.date == d {
            seq![x]
        } else {
            Seq::empty()
        }));
    }
}

proof fn lemma_sort_by_date(s: Seq<PageView>, d: (i32, u32, u32))
    ensures
        newest_first(sort_by_date(s)),
        sort_by_date(s).to_multiset() =~= s.to_multiset(),
        dated(sort_by_date(s), d) == dated(s, d),
    decreases s.len(),
{
    broadcast use vstd::seq_lib::to_multiset_build;

    if s.len() == 0 {
    } else {
        let dl = s.drop_last();
        lemma_sort_by_date(dl, d);
        lemma_insert_newest_first(sort_by_date(dl), s.last());
        lemma_insert_multiset(sort_by_date(dl), s.last());
        lemma_insert_dated(sort_by_date(dl), s.last(), d);
        assert(dl.push(s.last()) =~= s);
        assert(dated(s, d) =~= dated(dl, d) + (if s.last().attributes.date == d {
            seq![s.last()]
        } else {
            Seq::empty()
        }));
    }
}

/// The blog posts of a site come newest first.
pub proof fn law_posts_newest_first(pages: Seq<PageView>)
    ensures
        newest_first(spec_posts(pages)),
{
    lemma_sort_by_date(posts_of(pages), (0, 0, 0));
}

/// The blog posts of a site are its pages with the layout `post`, each as
/// often as it occurs among the pages, and no others.
pub proof fn law_posts_are_the_post_pages(pages: Seq<PageView>)
    ensures
        spec_posts(pages).to_multiset() == posts_of(pages).to_multiset(),
        forall|i: int| 0 <= i < spec_posts(pages).len() ==> is_post_view(#[trigger] spec_posts(pages)[i]),
{
    lemma_sort_by_date(posts_of(pages), (0, 0, 0));
    lemma_posts_of(pages);
    assert forall|i: int| 0 <= i < spec_posts(pages).len() implies is_post_view(
        #[trigger] spec_posts(pages)[i],
    ) by {
        let e = spec_posts(pages)[i];
        broadcast use vstd::seq_lib::group_seq_properties;
        broadcast use vstd::multiset::group_multiset_axioms;
        assert(spec_posts(pages).to_multiset().count(e) > 0);
        assert(posts_of(pages).to_multiset().count(e) > 0);
        assert(posts_of(pages).contains(e));
    }
}

proof fn lemma_posts_of(pages: Seq<PageView>)
    ensures
        forall|i: int| 0 <= i < posts_of(pages).len() ==> is_post_view(#[trigger] posts_of(pages)[i]),
    decreases pages.len(),
{
    if pages.len() > 0 {
        lemma_posts_of(pages.drop_last());
        let p = posts_of(pages.drop_last());
        if is_post_view(pages.last()) {
            assert forall|i: int| 0 <= i < posts_of(pages).len() implies is_post_view(
                #[trigger] posts_of(pages)[i],
            ) by {
                if i < p.len() {
                    assert(posts_of(pages)[i] == p[i]);
                }
            }
        }
    }
}

/// Blog posts of the same date come in the order of the site's pages.
pub proof fn law_posts_keep_order_within_a_date(pages: Seq<PageView>, d: (i32, u32, u32))
    ensures
        dated(spec_posts(pages), d) == dated(posts_of(pages), d),
{
    lemma_sort_by_date(posts_of(pages), d);
}


/// The names in `names` are all different.
pub open spec fn distinct(names: Seq<Seq<char>>) -> bool {
    forall|i: int, j: int| 0 <= i < j < names.len() ==> names[i] != names[j]
}

/// The place of `name` in `names`, where it is there.
pub open spec fn place_of(names: Seq<Seq<char>>, name: Seq<char>) -> Option<int> {
    if names.contains(name) {
        Some(choose|i: int| 0 <= i < names.len() && names[i] == name)
    } else {
        None
    }
}

/// `names` after `name` is added: unchanged where it is there already, and
/// otherwise with `name` at its end.
pub open spec fn added(names: Seq<Seq<char>>, name: Seq<char>) -> Seq<Seq<char>> {
    if names.contains(name) {
        names
    } else {
        names.push(name)
    }
}

/// The names of a site's templates, each with its place: the templates
/// themselves are kept by the caller at the same places.
pub struct Templates {
    names: Vec<String>,
}

impl View for Templates {
    type V = Seq<Seq<char>>;

    closed spec fn view(&self) -> Seq<Seq<char>> {
        text::views(self.names@)
    }
}

impl Templates {
    #[verifier::type_invariant]
    spec fn names_distinct(self) -> bool {
        distinct(text::views(self.names@))
    }

    /// No templates.
    pub fn new() -> (r: Templates)
        ensures
            r@ == Seq::<Seq<char>>::empty(),
    {
        let r = Templates { names: Vec::new() };
        assert(text::views(r.names@) =~= Seq::<Seq<char>>::empty());
        r
    }

    /// The number of templates.
    pub fn len(&self) -> (r: usize)
        ensures
            r == self@.len(),
    {
        self.names.len()
    }

    /// The place of the template named `name`, where there is one.
    pub fn get(&self, name: &str) -> (r: Option<usize>)
        ensures
            r is Some <==> self@.contains(name@),
            r matches Some(i) ==> place_of(self@, name@) == Some(i as int) && self@[i as int] == name@,
    {
        proof {
            use_type_invariant(self);
        }
        let ghost v = text::views(self.names@);
        let n = self.names.len();
        let mut i: usize = 0;
        while i < n
            invariant
                n == self.names@.len(),
                v == text::views(self.names@),
                distinct(v),
                i <= n,
                forall|k: int| 0 <= k < i ==> v[k] != name@,
            decreases n - i,
        {
            if text::same_text(self.names[i].as_str(), name) {
                assert(v[i as int] == name@);
                assert(v.contains(name@));
                proof {
                    let c = choose|k: int| 0 <= k < v.len() && v[k] == name@;
                    assert(c == i);
                }
                return Some(i);
            }
            i = i + 1;
        }
        assert(!v.contains(name@));
        None
    }

    /// Adds the template named `name`, and gives back its place: the place it
    /// already has, or a new place after the others. (A template added under a
    /// name already there takes the place of the one before it.)
    pub fn insert(&mut self, name: String) -> (slot: usize)
        ensures
            final(self)@ == added(old(self)@, name@),
            place_of(final(self)@, name@) == Some(slot as int),
            old(self)@.contains(name@) ==> place_of(old(self)@, name@) == Some(slot as int),
            !old(self)@.contains(name@) ==> slot == old(self)@.len(),
    {
        match self.get(name.as_str()) {
            Some(i) => i,
            None => {
                proof {
                    use_type_invariant(&*self);
                }
                let ghost v = text::views(self.names@);
                let slot = self.names.len();
                let mut names: Vec<String> = Vec::new();
                assert(distinct(text::views(names@)));
                std::mem::swap(&mut names, &mut self.names);
                names.push(name);
                assert(text::views(names@) =~= v.push(name@));
                assert(distinct(text::views(names@)));
                self.names = names;
                assert(text::views(self.names@)[slot as int] == name@);
                assert(text::views(self.names@).contains(name@));
                slot
            },
        }
    }
}

/// Where a name is added to names that are all different, the names stay all
/// different, the name is found at the place it was given, and every other name
/// is found where it was before.
pub proof fn law_template_lookup_after_insert(names: Seq<Seq<char>>, name: Seq<char>, other: Seq<char>)
    requires
        distinct(names),
        other != name,
    ensures
        distinct(added(names, name)),
        place_of(added(names, name), name) == (if names.contains(name) {
            place_of(names, name)
        } else {
            Some(names.len() as int)
        }),
        place_of(added(names, name), other) == place_of(names, other),
{
    let a = added(names, name);
    if !names.contains(name) {
        assert(a[names.len() as int] == name);
        assert(a.contains(name));
        let c = choose|k: int| 0 <= k < a.len() && a[k] == name;
        if c < names.len() {
            assert(names[c] == name);
        }
        if names.contains(other) {
            let c2 = choose|k: int| 0 <= k < names.len() && names[k] == other;
            assert(a[c2] == other);
            assert(a.contains(other));
            let c3 = choose|k: int| 0 <= k < a.len() && a[k] == other;
            assert(c3 < names.len());
            assert(names[c3] == other);
        } else {
            assert forall|k: int| 0 <= k < a.len() implies a[k] != other by {
                if k < names.len() {
                    assert(a[k] == names[k]);
                }
            }
        }
    }
}

/// The name of the template in the file named `file_name`: the file name with
/// every `.mustache` taken out of it.
pub fn template_name(file_name: &str) -> (r: String)
    ensures
        r@ == text::without(file_name@, ".mustache"@),
{
    let suffix = ".mustache";
    proof {
        reveal_strlit(".mustache");
    }
    text::remove_all(file_name, suffix)
}

/// Whether the entry named `name` is hidden: its name begins with a dot.
/// Hidden entries, and everything under a hidden directory, are left out of the site.
pub fn is_hidden(name: &str) -> (r: bool)
    ensures
        r == (name@.len() > 0 && name@[0] == '.'),
{
    let n = name.unicode_len();
    n > 0 && name.get_char(0) == '.'
}

/// What is done with an entry of the source directory.
#[derive(Clone, Copy, Debug, PartialEq, Eq, Structural)]
pub enum EntryAction {
    /// A Markdown file: rendered as HTML and made into a page.
    BuildMarkdown,
    /// An HTML file: made into a page.
    BuildHtml,
    /// A Mustache file: compiled and kept as a template.
    AddTemplate,
    /// Any other file: copied as it is.
    Copy,
    /// A directory or anything else that is not a file: nothing.
    Skip,
}

/// What is done with the entry at `path`, a file or not, by its markup.
pub open spec fn spec_entry_action(path: Seq<char>, is_file: bool) -> EntryAction {
    match markup_of_path(path) {
        Some(Markup::Markdown) => EntryAction::BuildMarkdown,
        Some(Markup::HTML) => EntryAction::BuildHtml,
        Some(Markup::Mustache) => EntryAction::AddTemplate,
        None => if is_file {
            EntryAction::Copy
        } else {
            EntryAction::Skip
        },
    }
}

/// What is done with the entry at `path` of the source directory: Markdown and
/// HTML files become pages, Mustache files templates, other files are copied,
/// and anything else is skipped.
pub fn entry_action(path: &str, is_file: bool) -> (r: EntryAction)
    ensures
        r == spec_entry_action(path@, is_file),
{
    match utils::extract_markup(path) {
        Some(Markup::Markdown) => EntryAction::BuildMarkdown,
        Some(Markup::HTML) => EntryAction::BuildHtml,
        Some(Markup::Mustache) => EntryAction::AddTemplate,
        None => if is_file {
            EntryAction::Copy
        } else {
            EntryAction::Skip
        },
    }
}

/// The template that `page` is rendered with: for a Markdown or HTML page, the
/// one named by its layout, and `MissingLayout` where there is none; a Mustache
/// page is not rendered (`None`).
pub fn render_target(page: &Page, templates: &Templates) -> (r: Result<Option<usize>, GoethiteError>)
    ensures
        page.markup == Markup::Mustache ==> r == Ok::<Option<usize>, GoethiteError>(None),
        page.markup != Markup::Mustache ==> (r is Ok <==> templates@.contains(page.attributes.layout@)),
        page.markup != Markup::Mustache ==> (r matches Ok(Some(i)) ==> place_of(templates@, page.attributes.layout@) == Some(i as int)),
        page.markup != Markup::Mustache ==> (r matches Err(e) ==> e == GoethiteError::MissingLayout(page.attributes.layout)),
        r matches Ok(o) ==> (o is None <==> page.markup == Markup::Mustache),
{
    match page.markup {
        Markup::Mustache => Ok(None),
        _ => match templates.get(page.attributes.layout.as_str()) {
            Some(i) => Ok(Some(i)),
            None => Err(GoethiteError::MissingLayout(page.attributes.layout.clone())),
        },
    }
}

/// A site: its configuration, its pages, and its blog posts newest first.
pub struct Site {
    pub config: Config,
    pub pages: Vec<Page>,
    pub posts: Vec<Page>,
}

impl Site {
    /// A site with the configuration `config` and no pages yet.
    pub fn new(config: Config) -> (r: Site)
        ensures
            r.config == config,
            r.pages@.len() == 0,
            r.posts@.len() == 0,
    {
        Site { config: config, pages: Vec::new(), posts: Vec::new() }
    }

    /// This site with the pages `pages`, and as its posts those of them with
    /// the layout `post`, newest first.
    pub fn with_pages(self, pages: Vec<Page>) -> (r: Site)
        ensures
            r.config == self.config,
            r.pages == pages,
            page_views(r.posts@) == spec_posts(page_views(pages@)),
    {
        let posts = collect_posts(&pages);
        Site { config: self.config, pages: pages, posts: posts }
    }
}

/// What is done with a source entry is fixed by the extension of its name:
/// `md` and `markdown` files are built as Markdown pages, `html` files as HTML
/// pages, `mustache` files are added as templates; every other file, with
/// another extension or none, is copied; and an entry that is not a file is
/// skipped unless it has one of those four extensions.
pub proof fn law_entry_actions(path: Seq<char>, is_file: bool)
    ensures
        paths_ext_is(path, "md"@) || paths_ext_is(path, "markdown"@) ==> spec_entry_action(path, is_file)
            == EntryAction::BuildMarkdown,
        paths_ext_is(path, "html"@) ==> spec_entry_action(path, is_file) == EntryAction::BuildHtml,
        paths_ext_is(path, "mustache"@) ==> spec_entry_action(path, is_file) == EntryAction::AddTemplate,
        !paths_ext_is(path, "md"@) && !paths_ext_is(path, "markdown"@) && !paths_ext_is(path, "html"@)
            && !paths_ext_is(path, "mustache"@) ==> spec_entry_action(path, is_file) == (if is_file {
            EntryAction::Copy
        } else {
            EntryAction::Skip
        }),
{
    match crate::paths::extension_of(path) {
        Some(e) => utils::law_markup_extensions(e, path),
        None => utils::law_markup_extensions(Seq::empty(), path),
    }
}

/// The name of the file at `path` has the extension `ext`.
pub open spec fn paths_ext_is(path: Seq<char>, ext: Seq<char>) -> bool {
    crate::paths::extension_of(path) == Some(ext)
}

/// The blog posts of a site come newest first by the calendar: of two posts,
/// the one further on is never of a later year, nor of a later month of the
/// same year, nor of a later day of the same month.
pub proof fn law_posts_newest_first_by_calendar(pages: Seq<PageView>, i: int, j: int)
    requires
        0 <= i < j < spec_posts(pages).len(),
    ensures
        ({
            let a = spec_posts(pages)[i].attributes.date;
            let b = spec_posts(pages)[j].attributes.date;
            &&& b.0 <= a.0
            &&& b.0 == a.0 ==> b.1 <= a.1
            &&& b.0 == a.0 && b.1 == a.1 ==> b.2 <= a.2
        }),
{
    law_posts_newest_first(pages);
    let a = spec_posts(pages)[i].attributes.date;
    let b = spec_posts(pages)[j].attributes.date;
    assert(!date_before(a, b));
    crate::date::law_date_order_is_calendar_order(a, b);
}

} // verus!
