//! The decisions behind the command line: category tables, bounds checks
//! and query-URL construction.
//!
//! Reading the actual arguments is I/O and stays outside the library; the
//! functions here take the raw option values and compute everything that
//! can be computed: which source to scrape, whether the category and
//! filter indices are in range, and the final query URL.

use vstd::prelude::*;

use crate::num::{parse_u64, parse_usize, spec_parse_uint};
use crate::strutil::{str_eq, u64_digits, u64_to_string};
use crate::urls::{build_url_with_params, url_with_params};

verus! {

/// A category of the listing site, with its subcategories.
#[derive(Debug, Clone, PartialEq)]
pub struct Category {
    pub name: String,
    pub subcategories: Vec<String>,
}

/// Mathematical model of a [`Category`].
#[verifier::ext_equal]
pub struct CategoryM {
    pub name: Seq<char>,
    pub subcategories: Seq<Seq<char>>,
}

impl View for Category {
    type V = CategoryM;

    open spec fn view(&self) -> CategoryM {
        CategoryM { name: self.name@, subcategories: self.subcategories.deep_view() }
    }
}

impl DeepView for Category {
    type V = CategoryM;

    open spec fn deep_view(&self) -> CategoryM {
        self.view()
    }
}

/// One line of the category help text: `{index} - {name}`.
pub open spec fn spec_name_line(i: int, name: Seq<char>) -> Seq<char> {
    u64_digits(i) + " - "@ + name
}

/// One line of the subcategory help text: `   {index} - {name}`, indices
/// starting at 1.
pub open spec fn spec_sub_line(j: int, name: Seq<char>) -> Seq<char> {
    "   "@ + u64_digits(j + 1) + " - "@ + name
}

/// The numbered category list, one line per category.
pub open spec fn spec_names(cs: Seq<CategoryM>) -> Seq<char> {
    crate::strutil::spec_join(Seq::new(cs.len(), |i: int| spec_name_line(i, cs[i].name)), "\n"@)
}

/// One category's block in the long help: its line, then its numbered
/// subcategories when it has any.
pub open spec fn spec_block(i: int, c: CategoryM) -> Seq<char> {
    if c.subcategories.len() == 0 {
        spec_name_line(i, c.name)
    } else {
        spec_name_line(i, c.name) + "\n"@ + crate::strutil::spec_join(
            Seq::new(c.subcategories.len(), |j: int| spec_sub_line(j, c.subcategories[j])),
            "\n"@,
        )
    }
}

/// The numbered category list with each category's subcategories.
pub open spec fn spec_names_and_subcategories(cs: Seq<CategoryM>) -> Seq<char> {
    crate::strutil::spec_join(Seq::new(cs.len(), |i: int| spec_block(i, cs[i])), "\n"@)
}

fn name_line(i: usize, name: &str) -> (r: String)
    ensures
        r@ == spec_name_line(i as int, name@),
{
    let mut s = u64_to_string(i as u64);
    s.append(" - ");
    s.append(name);
    s
}

fn sub_line(j: usize, name: &str) -> (r: String)
    requires
        j < usize::MAX,
    ensures
        r@ == spec_sub_line(j as int, name@),
{
    let mut s = "   ".to_owned();
    let num = u64_to_string((j + 1) as u64);
    s.append(num.as_str());
    s.append(" - ");
    s.append(name);
    s
}

impl Category {
    /// Builds a category from its name and subcategory names.
    pub fn from(name: &str, subcategories: Vec<String>) -> (c: Category)
        ensures
            c@ == (CategoryM { name: name@, subcategories: subcategories.deep_view() }),
    {
        let c = Category { name: name.to_owned(), subcategories };
        proof {
            assert(c@ =~~= CategoryM { name: name@, subcategories: c.subcategories.deep_view() });
        }
        c
    }

    /// The numbered category list, for the short help text.
    pub fn names(list: &Vec<Category>) -> (r: String)
        ensures
            r@ == spec_names(list.deep_view()),
    {
        let ghost dv = list.deep_view();
        let mut lines: Vec<String> = Vec::new();
        let mut i: usize = 0;
        while i < list.len()
            invariant
                i <= list@.len(),
                dv == list.deep_view(),
                dv.len() == list@.len(),
                lines.deep_view() =~= Seq::new(i as nat, |k: int| spec_name_line(k, dv[k].name)),
            decreases list@.len() - i,
        {
            let ghost before = lines.deep_view();
            let line = name_line(i, list[i].name.as_str());
            lines.push(line);
            proof {
                assert(dv[i as int].name == list@[i as int].name@);
                assert(lines.deep_view() =~~= before.push(spec_name_line(i as int, dv[i as int].name)));
                assert(lines.deep_view() =~= Seq::new(
                    i as nat + 1,
                    |k: int| spec_name_line(k, dv[k].name),
                ));
            }
            i = i + 1;
        }
        crate::strutil::join_strings(&lines, "\n")
    }

    /// The numbered category list with subcategories, for the long help.
    pub fn names_and_subcategories(list: &Vec<Category>) -> (r: String)
        ensures
            r@ == spec_names_and_subcategories(list.deep_view()),
    {
        let ghost dv = list.deep_view();
        let mut blocks: Vec<String> = Vec::new();
        let mut i: usize = 0;
        while i < list.len()
            invariant
                i <= list@.len(),
                dv == list.deep_view(),
                dv.len() == list@.len(),
                blocks.deep_view() =~= Seq::new(i as nat, |k: int| spec_block(k, dv[k])),
            decreases list@.len() - i,
        {
            let ghost before = blocks.deep_view();
            let cat = &list[i];
            proof {
                assert(dv[i as int] == list@[i as int]@);
            }
            let block: String = if cat.subcategories.len() == 0 {
                proof {
                    assert(dv[i as int].subcategories.len() == 0);
                }
                name_line(i, cat.name.as_str())
            } else {
                let ghost subs = dv[i as int].subcategories;
                let mut sub_lines: Vec<String> = Vec::new();
                let mut j: usize = 0;
                while j < cat.subcategories.len()
                    invariant
                        j <= cat.subcategories@.len(),
                        subs == cat.subcategories.deep_view(),
                        subs.len() == cat.subcategories@.len(),
                        sub_lines.deep_view() =~= Seq::new(
                            j as nat,
                            |k: int| spec_sub_line(k, subs[k]),
                        ),
                    decreases cat.subcategories@.len() - j,
                {
                    let ghost sbefore = sub_lines.deep_view();
                    let line = sub_line(j, cat.subcategories[j].as_str());
                    sub_lines.push(line);
                    proof {
                        assert(subs[j as int] == cat.subcategories@[j as int]@);
                        assert(sub_lines.deep_view() =~~= sbefore.push(
                            spec_sub_line(j as int, subs[j as int]),
                        ));
                        assert(sub_lines.deep_view() =~= Seq::new(
                            j as nat + 1,
                            |k: int| spec_sub_line(k, subs[k]),
                        ));
                    }
                    j = j + 1;
                }
                let joined = crate::strutil::join_strings(&sub_lines, "\n");
                let mut b = name_line(i, cat.name.as_str());
                b.append("\n");
                b.append(joined.as_str());
                b
            };
            blocks.push(block);
            proof {
                assert(blocks.deep_view() =~~= before.push(spec_block(i as int, dv[i as int])));
                assert(blocks.deep_view() =~= Seq::new(
                    i as nat + 1,
                    |k: int| spec_block(k, dv[k]),
                ));
            }
            i = i + 1;
        }
        crate::strutil::join_strings(&blocks, "\n")
    }
}

/// The listing sites this tool can scrape.
#[allow(non_camel_case_types)]
#[derive(Debug, Clone, Copy, PartialEq, Eq, Structural)]
pub enum Source {
    NYAASI,
    SUKEBEI,
}

/// The category table of each source.
pub open spec fn spec_categories(s: Source) -> Seq<CategoryM> {
    match s {
        Source::NYAASI => seq![
            CategoryM { name: "All categories"@, subcategories: seq![] },
            CategoryM {
                name: "Anime"@,
                subcategories: seq![
                    "Anime Music Video"@,
                    "English-translated"@,
                    "Non-English-translated"@,
                    "Raw"@,
                ],
            },
            CategoryM { name: "Audio"@, subcategories: seq!["Lossless"@, "Lossy"@] },
            CategoryM {
                name: "Literature"@,
                subcategories: seq![
                    "English-translated"@,
                    "Non-English-translated"@,
                    "Raw"@,
                ],
            },
            CategoryM {
                name: "Live Action"@,
                subcategories: seq![
                    "English-translated"@,
                    "Idol/Promotional Video"@,
                    "Non-English-translated"@,
                    "Raw"@,
                ],
            },
            CategoryM { name: "Pictures"@, subcategories: seq!["Graphics"@, "Photos"@] },
            CategoryM { name: "Software"@, subcategories: seq!["Applications"@, "Games"@] },
        ],
        Source::SUKEBEI => seq![
            CategoryM { name: "All categories"@, subcategories: seq![] },
            CategoryM {
                name: "Art"@,
                subcategories: seq![
                    "Anime"@,
                    "Doujinshi"@,
                    "Games"@,
                    "Manga"@,
                    "Pictures"@,
                ],
            },
            CategoryM {
                name: "Real Life"@,
                subcategories: seq!["Photobooks and Pictures"@, "Videos"@],
            },
        ],
    }
}

fn cat(name: &str) -> (c: Category)
    ensures
        c@ == (CategoryM { name: name@, subcategories: Seq::<Seq<char>>::empty() }),
{
    let c = Category::from(name, Vec::new());
    proof {
        assert(c@ =~~= CategoryM { name: name@, subcategories: Seq::<Seq<char>>::empty() });
    }
    c
}

fn cat2(name: &str, s1: &str, s2: &str) -> (c: Category)
    ensures
        c@ == (CategoryM { name: name@, subcategories: seq![s1@, s2@] }),
{
    let mut subs: Vec<String> = Vec::new();
    subs.push(s1.to_owned());
    subs.push(s2.to_owned());
    let c = Category::from(name, subs);
    proof {
        assert(c@ =~~= CategoryM { name: name@, subcategories: seq![s1@, s2@] });
    }
    c
}

fn cat3(name: &str, s1: &str, s2: &str, s3: &str) -> (c: Category)
    ensures
        c@ == (CategoryM { name: name@, subcategories: seq![s1@, s2@, s3@] }),
{
    let mut subs: Vec<String> = Vec::new();
    subs.push(s1.to_owned());
    subs.push(s2.to_owned());
    subs.push(s3.to_owned());
    let c = Category::from(name, subs);
    proof {
        assert(c@ =~~= CategoryM { name: name@, subcategories: seq![s1@, s2@, s3@] });
    }
    c
}

fn cat4(name: &str, s1: &str, s2: &str, s3: &str, s4: &str) -> (c: Category)
    ensures
        c@ == (CategoryM { name: name@, subcategories: seq![s1@, s2@, s3@, s4@] }),
{
    let mut subs: Vec<String> = Vec::new();
    subs.push(s1.to_owned());
    subs.push(s2.to_owned());
    subs.push(s3.to_owned());
    subs.push(s4.to_owned());
    let c = Category::from(name, subs);
    proof {
        assert(c@ =~~= CategoryM { name: name@, subcategories: seq![s1@, s2@, s3@, s4@] });
    }
    c
}

fn cat5(name: &str, s1: &str, s2: &str, s3: &str, s4: &str, s5: &str) -> (c: Category)
    ensures
        c@ == (CategoryM { name: name@, subcategories: seq![s1@, s2@, s3@, s4@, s5@] }),
{
    let mut subs: Vec<String> = Vec::new();
    subs.push(s1.to_owned());
    subs.push(s2.to_owned());
    subs.push(s3.to_owned());
    subs.push(s4.to_owned());
    subs.push(s5.to_owned());
    let c = Category::from(name, subs);
    proof {
        assert(c@ =~~= CategoryM { name: name@, subcategories: seq![s1@, s2@, s3@, s4@, s5@] });
    }
    c
}

impl Source {
    /// The category table of this source.
    pub fn categories(&self) -> (r: Vec<Category>)
        ensures
            r.deep_view() == spec_categories(*self),
    {
        let mut cs: Vec<Category> = Vec::new();
        match self {
            Source::NYAASI => {
                cs.push(cat("All categories"));
                cs.push(
                    cat4(
                        "Anime",
                        "Anime Music Video",
                        "English-translated",
                        "Non-English-translated",
                        "Raw",
                    ),
                );
                cs.push(cat2("Audio", "Lossless", "Lossy"));
                cs.push(
                    cat3("Literature", "English-translated", "Non-English-translated", "Raw"),
                );
                cs.push(
                    cat4(
                        "Live Action",
                        "English-translated",
                        "Idol/Promotional Video",
                        "Non-English-translated",
                        "Raw",
                    ),
                );
                cs.push(cat2("Pictures", "Graphics", "Photos"));
                cs.push(cat2("Software", "Applications", "Games"));
                proof {
                    assert(cs.deep_view() =~~= spec_categories(*self));
                }
            },
            Source::SUKEBEI => {
                cs.push(cat("All categories"));
                cs.push(cat5("Art", "Anime", "Doujinshi", "Games", "Manga", "Pictures"));
                cs.push(cat2("Real Life", "Photobooks and Pictures", "Videos"));
                proof {
                    assert(cs.deep_view() =~~= spec_categories(*self));
                }
            },
        }
        cs
    }

    /// The base URL of this source.
    pub open spec fn spec_base_url(self) -> Seq<char> {
        match self {
            Source::NYAASI => "https://nyaa.si"@,
            Source::SUKEBEI => "https://sukebei.nyaa.si"@,
        }
    }

    pub fn base_url(&self) -> (r: &'static str)
        ensures
            r@ == self.spec_base_url(),
    {
        match self {
            Source::NYAASI => "https://nyaa.si",
            Source::SUKEBEI => "https://sukebei.nyaa.si",
        }
    }

    /// Validated category and subcategory indices for this source.
    pub fn parse_categories(&self, category: Option<&str>, subcategory: Option<&str>) -> (r:
        Result<(usize, usize), String>)
        ensures
            match r {
                Ok(p) => spec_parse_categories(*self, view_opt(category), view_opt(subcategory))
                    == Ok::<(int, int), Seq<char>>((p.0 as int, p.1 as int)),
                Err(m) => spec_parse_categories(*self, view_opt(category), view_opt(subcategory))
                    == Err::<(int, int), Seq<char>>(m@),
            },
    {
        let category_idx = match try_parse("category", category, 0) {
            Ok(v) => v,
            Err(m) => {
                return Err(m);
            },
        };
        let subcategory_idx = match try_parse("subcategory", subcategory, 0) {
            Ok(v) => v,
            Err(m) => {
                return Err(m);
            },
        };
        let categories = self.categories();
        if category_idx >= categories.len() {
            let mut m = "Category out of bounds: ".to_owned();
            let l = u64_to_string(categories.len() as u64);
            m.append(l.as_str());
            m.append(" available, got ");
            let g = u64_to_string(category_idx as u64);
            m.append(g.as_str());
            return Err(m);
        }
        let subs_len = categories[category_idx].subcategories.len();
        proof {
            assert(categories.deep_view()[category_idx as int].subcategories.len()
                == subs_len as int) by {
                assert(categories.deep_view()[category_idx as int]
                    == categories@[category_idx as int]@);
            }
        }
        if subs_len == 0 {
            if subcategory_idx != 0 {
                let mut m = "Subcategory must be 0 for categories without subcategories, got "
                    .to_owned();
                let g = u64_to_string(subcategory_idx as u64);
                m.append(g.as_str());
                return Err(m);
            }
        } else if subcategory_idx >= subs_len {
            let mut m = "Subcategory out of bounds: ".to_owned();
            let l = u64_to_string(subs_len as u64);
            m.append(l.as_str());
            m.append(" available, for ");
            let g = u64_to_string(subcategory_idx as u64);
            m.append(g.as_str());
            return Err(m);
        }
        Ok((category_idx, subcategory_idx))
    }
}

/// The view of an optional argument value.
pub open spec fn view_opt(o: Option<&str>) -> Option<Seq<char>> {
    match o {
        Some(s) => Some(s@),
        None => None,
    }
}

/// What parsing an optional argument as an index yields: the default when
/// it is absent, its value when it parses, a message otherwise.
pub open spec fn spec_try_parse(name: Seq<char>, raw: Option<Seq<char>>, default: int) -> Result<
    int,
    Seq<char>,
> {
    match raw {
        None => Ok(default),
        Some(v) => match spec_parse_uint(v, usize::MAX as int) {
            Ok(x) => Ok(x),
            Err(e) => Err("Invalid value for "@ + name + ": "@ + e.spec_message()),
        },
    }
}

/// Like [`spec_try_parse`] but bounded by `u64::MAX` (the page number).
pub open spec fn spec_try_parse_u64(name: Seq<char>, raw: Option<Seq<char>>, default: int) -> Result<
    int,
    Seq<char>,
> {
    match raw {
        None => Ok(default),
        Some(v) => match spec_parse_uint(v, u64::MAX as int) {
            Ok(x) => Ok(x),
            Err(e) => Err("Invalid value for "@ + name + ": "@ + e.spec_message()),
        },
    }
}

/// Parses an optional argument as a `usize`, with a default.
pub fn try_parse(name: &str, raw: Option<&str>, default: usize) -> (r: Result<usize, String>)
    ensures
        match r {
            Ok(v) => spec_try_parse(name@, view_opt(raw), default as int) == Ok::<int, Seq<char>>(
                v as int,
            ),
            Err(m) => spec_try_parse(name@, view_opt(raw), default as int) == Err::<
                int,
                Seq<char>,
            >(m@),
        },
{
    match raw {
        None => Ok(default),
        Some(v) => match parse_usize(v) {
            Ok(x) => Ok(x),
            Err(e) => {
                let mut m = "Invalid value for ".to_owned();
                m.append(name);
                m.append(": ");
                let cause = e.message();
                m.append(cause.as_str());
                Err(m)
            },
        },
    }
}

/// Parses an optional argument as a `u64`, with a default.
pub fn try_parse_u64(name: &str, raw: Option<&str>, default: u64) -> (r: Result<u64, String>)
    ensures
        match r {
            Ok(v) => spec_try_parse_u64(name@, view_opt(raw), default as int) == Ok::<
                int,
                Seq<char>,
            >(v as int),
            Err(m) => spec_try_parse_u64(name@, view_opt(raw), default as int) == Err::<
                int,
                Seq<char>,
            >(m@),
        },
{
    match raw {
        None => Ok(default),
        Some(v) => match parse_u64(v) {
            Ok(x) => Ok(x),
            Err(e) => {
                let mut m = "Invalid value for ".to_owned();
                m.append(name);
                m.append(": ");
                let cause = e.message();
                m.append(cause.as_str());
                Err(m)
            },
        },
    }
}

/// Validated category and subcategory indices.
pub open spec fn spec_parse_categories(
    s: Source,
    category: Option<Seq<char>>,
    subcategory: Option<Seq<char>>,
) -> Result<(int, int), Seq<char>> {
    match spec_try_parse("category"@, category, 0) {
        Err(m) => Err(m),
        Ok(ci) => match spec_try_parse("subcategory"@, subcategory, 0) {
            Err(m) => Err(m),
            Ok(si) => {
                let cats = spec_categories(s);
                if ci >= cats.len() {
                    Err(
                        "Category out of bounds: "@ + u64_digits(cats.len() as int)
                            + " available, got "@ + u64_digits(ci),
                    )
                } else {
                    let subs = cats[ci].subcategories;
                    if subs.len() == 0 {
                        if si != 0 {
                            Err(
                                "Subcategory must be 0 for categories without subcategories, got "@
                                    + u64_digits(si),
                            )
                        } else {
                            Ok((ci, si))
                        }
                    } else if si >= subs.len() {
                        Err(
                            "Subcategory out of bounds: "@ + u64_digits(subs.len() as int)
                                + " available, for "@ + u64_digits(si),
                        )
                    } else {
                        Ok((ci, si))
                    }
                }
            },
        },
    }
}

/// How many entries the caller wants printed; the default keeps them all.
pub fn include_amount(number: Option<&str>) -> (r: Result<usize, String>)
    ensures
        match r {
            Ok(v) => spec_try_parse("number"@, view_opt(number), 10000000) == Ok::<
                int,
                Seq<char>,
            >(v as int),
            Err(m) => spec_try_parse("number"@, view_opt(number), 10000000) == Err::<
                int,
                Seq<char>,
            >(m@),
        },
{
    try_parse("number", number, 10000000)
}

/// Whether a field should be printed: every field is printed when no
/// include list was given, otherwise exactly the listed ones.
#[verifier::loop_isolation(false)]
pub fn should_print(fields: Option<&Vec<String>>, what: &str) -> (r: bool)
    ensures
        r == match fields {
            None => true,
            Some(v) => exists|i: int| 0 <= i < v.deep_view().len() && #[trigger] v.deep_view()[i] == what@,
        },
{
    match fields {
        None => true,
        Some(v) => {
            let mut i: usize = 0;
            while i < v.len()
                invariant
                    i <= v@.len(),
                    forall|j: int| 0 <= j < i ==> v.deep_view()[j] != what@,
                decreases v@.len() - i,
            {
                proof {
                    assert(v.deep_view()[i as int] == v@[i as int]@);
                }
                if str_eq(v[i].as_str(), what) {
                    proof {
                        assert(v.deep_view()[i as int] == what@);
                    }
                    return true;
                }
                i = i + 1;
            }
            false
        },
    }
}

/// The filter names a query may use.
pub open spec fn spec_filters() -> Seq<Seq<char>> {
    seq!["No filter"@, "No remakes"@, "Trusted only"@]
}

pub fn filters() -> (r: Vec<String>)
    ensures
        r.deep_view() == spec_filters(),
{
    let mut v: Vec<String> = Vec::new();
    v.push("No filter".to_owned());
    v.push("No remakes".to_owned());
    v.push("Trusted only".to_owned());
    proof {
        assert(v.deep_view() =~~= spec_filters());
    }
    v
}

/// The query parameters of a request: filter, category pair, page and
/// free-text query.
pub open spec fn spec_params(f: int, c0: int, c1: int, p: int, q: Option<Seq<char>>) -> Seq<
    (Seq<char>, Seq<char>),
> {
    seq![
        ("f"@, u64_digits(f)),
        ("c"@, u64_digits(c0) + "_"@ + u64_digits(c1)),
        ("p"@, u64_digits(p)),
        (
            "q"@,
            match q {
                Some(qq) => qq,
                None => Seq::<char>::empty(),
            },
        ),
    ]
}

/// The full query URL for the given raw argument values: which source,
/// which filter, category and subcategory (all bounds-checked), which
/// page, and the free-text query, assembled as the site's query string.
pub open spec fn spec_get_url(
    source: Option<Seq<char>>,
    filter: Option<Seq<char>>,
    category: Option<Seq<char>>,
    subcategory: Option<Seq<char>>,
    page: Option<Seq<char>>,
    query: Option<Seq<char>>,
) -> Result<Seq<char>, Seq<char>> {
    let src = match source {
        None => Some(Source::NYAASI),
        Some(s) => if s == "nyaasi"@ {
            Some(Source::NYAASI)
        } else if s == "sukebei"@ {
            Some(Source::SUKEBEI)
        } else {
            None
        },
    };
    match src {
        None => Err("Invalid source "@ + source->Some_0),
        Some(src) => match spec_try_parse("filter"@, filter, 2) {
            Err(m) => Err(m),
            Ok(f) => match spec_parse_categories(src, category, subcategory) {
                Err(m) => Err(m),
                Ok(cs) => if f >= spec_filters().len() {
                    Err(
                        "Filter out of bounds: "@ + u64_digits(spec_filters().len() as int)
                            + " available, got "@ + u64_digits(f),
                    )
                } else {
                    match spec_try_parse_u64("page"@, page, 1) {
                        Err(m) => Err(m),
                        Ok(p) => url_with_params(
                            src.spec_base_url(),
                            spec_params(f, cs.0, cs.1, p, query),
                        ),
                    }
                },
            },
        },
    }
}

/// Builds the query URL from the raw argument values.
pub fn get_url(
    source: Option<&str>,
    filter: Option<&str>,
    category: Option<&str>,
    subcategory: Option<&str>,
    page: Option<&str>,
    query: Option<&str>,
) -> (r: Result<String, String>)
    ensures
        match r {
            Ok(u) => spec_get_url(
                view_opt(source),
                view_opt(filter),
                view_opt(category),
                view_opt(subcategory),
                view_opt(page),
                view_opt(query),
            ) == Ok::<Seq<char>, Seq<char>>(u@),
            Err(m) => spec_get_url(
                view_opt(source),
                view_opt(filter),
                view_opt(category),
                view_opt(subcategory),
                view_opt(page),
                view_opt(query),
            ) == Err::<Seq<char>, Seq<char>>(m@),
        },
{
    let src = match source {
        None => Source::NYAASI,
        Some(s) => {
            if str_eq(s, "nyaasi") {
                Source::NYAASI
            } else if str_eq(s, "sukebei") {
                Source::SUKEBEI
            } else {
                let mut m = "Invalid source ".to_owned();
                m.append(s);
                return Err(m);
            }
        },
    };
    let f = match try_parse("filter", filter, 2) {
        Ok(v) => v,
        Err(m) => {
            return Err(m);
        },
    };
    let cs = match src.parse_categories(category, subcategory) {
        Ok(v) => v,
        Err(m) => {
            return Err(m);
        },
    };
    let nfilters = filters().len();
    if f >= nfilters {
        let mut m = "Filter out of bounds: ".to_owned();
        let l = u64_to_string(nfilters as u64);
        m.append(l.as_str());
        m.append(" available, got ");
        let g = u64_to_string(f as u64);
        m.append(g.as_str());
        return Err(m);
    }
    let p = match try_parse_u64("page", page, 1) {
        Ok(v) => v,
        Err(m) => {
            return Err(m);
        },
    };
    let q: String = match query {
        Some(q) => q.to_owned(),
        None => String::new(),
    };
    let mut c_val = u64_to_string(cs.0 as u64);
    c_val.append("_");
    let s_val = u64_to_string(cs.1 as u64);
    c_val.append(s_val.as_str());
    let mut params: Vec<(String, String)> = Vec::new();
    params.push(("f".to_owned(), u64_to_string(f as u64)));
    params.push(("c".to_owned(), c_val));
    params.push(("p".to_owned(), u64_to_string(p)));
    params.push(("q".to_owned(), q));
    proof {
        assert(params.deep_view() =~~= spec_params(
            f as int,
            cs.0 as int,
            cs.1 as int,
            p as int,
            view_opt(query),
        ));
    }
    match build_url_with_params(src.base_url(), &params) {
        Ok(u) => Ok(u),
        Err(m) => Err(m),
    }
}

} // verus!
