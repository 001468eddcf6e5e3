//! The catalogue of plugins: what its page lists, what a search of repositories adds, and what
//! is shown of both.
use crate::text;
use crate::text::{
    begins, cat, cat3, chars, count_upto, cut, cut_both, cut_end_all, cut_start, cut_start_set,
    holds, keep_filled, position, replace, same, split_at_char, split_lines, string_of, to_lower,
};
use vstd::prelude::*;

verus! {

/// A plugin that can be installed.
#[derive(Debug)]
pub struct MarketplaceItem {
    pub name: String,
    pub description: String,
    pub source: String,
    pub spec: String,
    pub url: String,
}

/// A plugin with its texts as characters.
#[verifier::ext_equal]
pub struct ItemView {
    pub name: Seq<char>,
    pub description: Seq<char>,
    pub source: Seq<char>,
    pub spec: Seq<char>,
    pub url: Seq<char>,
}

impl View for MarketplaceItem {
    type V = ItemView;

    open spec fn view(&self) -> ItemView {
        ItemView {
            name: self.name@,
            description: self.description@,
            source: self.source@,
            spec: self.spec@,
            url: self.url@,
        }
    }
}

/// Plugins with texts as characters.
pub open spec fn items(v: Seq<MarketplaceItem>) -> Seq<ItemView> {
    Seq::new(v.len(), |i: int| v[i]@)
}

/// What is shown of the catalogue, and what went wrong.
#[derive(Debug)]
pub struct MarketplaceResult {
    pub items: Vec<MarketplaceItem>,
    pub errors: Vec<String>,
}

/// A repository that a search has found.
#[derive(Debug)]
pub struct GhRepo {
    pub full_name: String,
    pub description: Option<String>,
    pub html_url: String,
}

/// The first `n` characters of a text.
pub open spec fn head_of(s: Seq<char>, n: int) -> Seq<char> {
    if s.len() <= n {
        s
    } else {
        s.subrange(0, n)
    }
}

/// What follows a link, without the dash before it and cut to what is shown.
pub open spec fn described(after: Seq<char>) -> Seq<char> {
    head_of(
        text::trim(
            text::strip_start(
                text::strip_start(text::strip_start(text::trim(after), seq!['-']), seq!['—']),
                seq!['–'],
            ),
        ),
        160,
    )
}

/// A name, or another text where the name is empty.
pub open spec fn name_or(name: Seq<char>, other: Seq<char>) -> Seq<char> {
    if name.len() == 0 {
        other
    } else {
        name
    }
}

/// The plugin that a link with this name and address leads to: a package of npm or a repository
/// of GitHub.
pub open spec fn linked(name: Seq<char>, url: Seq<char>, description: Seq<char>) -> Option<
    ItemView,
> {
    match text::find(url, "npmjs.com/package/"@) {
        Some(p) => {
            let tail = url.subrange(p + "npmjs.com/package/"@.len(), url.len() as int);
            let pkg = text::replaced(text::replaced(tail, "%2F"@, "/"@), "%2f"@, "/"@);
            Some(
                ItemView {
                    name: name_or(name, pkg),
                    description,
                    source: "npm"@,
                    spec: pkg,
                    url,
                },
            )
        },
        None => match text::find(url, "github.com/"@) {
            Some(p) => {
                let parts = text::filled(
                    text::split(url.subrange(p + "github.com/"@.len(), url.len() as int), '/'),
                );
                if parts.len() >= 2 {
                    let repo = text::strip_end_all(parts[1], ".git"@);
                    Some(
                        ItemView {
                            name: name_or(name, repo),
                            description,
                            source: "github"@,
                            spec: "github:"@ + parts[0] + "/"@ + repo,
                            url: "https://github.com/"@ + parts[0] + "/"@ + repo,
                        },
                    )
                } else {
                    None
                }
            },
            None => None,
        },
    }
}

/// The plugin that a line of the catalogue lists: a bullet with a link first, then a
/// description.
pub open spec fn listed(line: Seq<char>) -> Option<ItemView> {
    let t = text::trim_start(line);
    if !"- ["@.is_prefix_of(t) {
        None
    } else {
        let rest = t.subrange("- ["@.len() as int, t.len() as int);
        match text::find(rest, "]("@) {
            None => None,
            Some(k) => {
                let after = rest.subrange(k + "]("@.len(), rest.len() as int);
                let end = text::upto(after, ')');
                if end >= after.len() {
                    None
                } else {
                    linked(
                        rest.subrange(0, k),
                        after.subrange(0, end as int),
                        described(after.subrange(end as int + 1, after.len() as int)),
                    )
                }
            },
        }
    }
}

/// The plugins that lines of the catalogue list, in order.
pub open spec fn listed_in(ls: Seq<Seq<char>>) -> Seq<ItemView>
    decreases ls.len(),
{
    if ls.len() == 0 {
        Seq::empty()
    } else {
        match listed(ls.last()) {
            Some(item) => listed_in(ls.drop_last()).push(item),
            None => listed_in(ls.drop_last()),
        }
    }
}

fn describe(after: &[char]) -> (r: String)
    ensures
        r@ == described(after@),
{
    let hyphen: Vec<char> = vec!['-'];
    let em: Vec<char> = vec!['—'];
    let en: Vec<char> = vec!['–'];
    assert(hyphen@ =~= seq!['-']);
    assert(em@ =~= seq!['—']);
    assert(en@ =~= seq!['–']);
    let a = cut_start_set(cut_both(after), hyphen.as_slice());
    let b = cut_start_set(a, em.as_slice());
    let c = cut_both(cut_start_set(b, en.as_slice()));
    if c.len() <= 160 {
        string_of(c)
    } else {
        string_of(cut(c, 0, 160))
    }
}

fn follow(name: &[char], url: &[char], description: String) -> (r: Option<MarketplaceItem>)
    ensures
        match r {
            Some(item) => linked(name@, url@, description@) == Some(item@),
            None => linked(name@, url@, description@) is None,
        },
{
    let npm = chars("npmjs.com/package/");
    let github = chars("github.com/");
    let n: usize = url.len();
    if let Some(p) = position(url, npm.as_slice(), 0) {
        let upper = chars("%2F");
        let lower = chars("%2f");
        let to = chars("/");
        proof {
            reveal_strlit("%2F");
            reveal_strlit("%2f");
        }
        let once = replace(cut(url, p + npm.len(), n), upper.as_slice(), to.as_slice());
        let twice = replace(once.as_slice(), lower.as_slice(), to.as_slice());
        let pkg = string_of(twice.as_slice());
        let shown = if name.len() == 0 {
            pkg.clone()
        } else {
            string_of(name)
        };
        return Some(
            MarketplaceItem {
                name: shown,
                description,
                source: "npm".to_owned(),
                spec: pkg,
                url: string_of(url),
            },
        );
    }
    if let Some(p) = position(url, github.as_slice(), 0) {
        let pieces = split_at_char(cut(url, p + github.len(), n), '/');
        let parts = keep_filled(pieces.as_slice());
        let ghost all = text::filled(
            text::split(url@.subrange(p + "github.com/"@.len(), url@.len() as int), '/'),
        );
        assert(text::strs(parts@) == all);
        assert(text::strs(parts@).len() == parts@.len());
        if parts.len() >= 2 {
            assert(text::strs(parts@)[0] == parts@[0]@);
            assert(text::strs(parts@)[1] == parts@[1]@);
            let second = chars(parts[1].as_str());
            let git = chars(".git");
            let repo = string_of(cut_end_all(second.as_slice(), git.as_slice()));
            let shown = if name.len() == 0 {
                repo.clone()
            } else {
                string_of(name)
            };
            let spec = cat(
                cat3("github:", parts[0].as_str(), "/").as_str(),
                repo.as_str(),
            );
            let address = cat(
                cat3("https://github.com/", parts[0].as_str(), "/").as_str(),
                repo.as_str(),
            );
            return Some(
                MarketplaceItem {
                    name: shown,
                    description,
                    source: "github".to_owned(),
                    spec,
                    url: address,
                },
            );
        }
    }
    None
}

fn read_line(line: &[char]) -> (r: Option<MarketplaceItem>)
    ensures
        match r {
            Some(item) => listed(line@) == Some(item@),
            None => listed(line@) is None,
        },
{
    let t = cut_start(line);
    let mark = chars("- [");
    if !begins(string_of(t).as_str(), "- [") {
        return None;
    }
    let n: usize = t.len();
    let rest = cut(t, mark.len(), n);
    let middle = chars("](");
    let total: usize = rest.len();
    match position(rest, middle.as_slice(), 0) {
        None => None,
        Some(k) => {
            proof {
                text::lemma_find_from(rest@, middle@, 0);
            }
            let after = cut(rest, k + middle.len(), total);
            let end: usize = count_upto(after, ')');
            if end >= after.len() {
                return None;
            }
            let description = describe(cut(after, end + 1, after.len()));
            follow(cut(rest, 0, k), cut(after, 0, end), description)
        },
    }
}

/// The plugins that the text of the catalogue lists.
pub fn parse_awesome_readme(text: &str) -> (r: Vec<MarketplaceItem>)
    ensures
        items(r@) == listed_in(text::lines(text@)),
{
    let s = chars(text);
    let ls = split_lines(s.as_slice());
    let ghost all = text::lines(text@);
    let mut out: Vec<MarketplaceItem> = Vec::new();
    assert(items(out@) =~= listed_in(all.subrange(0, 0)));
    for i in 0..ls.len()
        invariant
            text::char_vecs(ls@) == all,
            items(out@) == listed_in(all.subrange(0, i as int)),
    {
        let ghost before = out@;
        assert(all.subrange(0, i + 1).drop_last() =~= all.subrange(0, i as int));
        assert(all.subrange(0, i + 1).last() == ls@[i as int]@);
        if let Some(item) = read_line(ls[i].as_slice()) {
            out.push(item);
            assert(items(out@) =~= items(before).push(item@));
        }
    }
    assert(all.subrange(0, all.len() as int) =~= all);
    out
}

/// What a repository is shown as.
pub open spec fn repo_item(
    full_name: Seq<char>,
    description: Option<Seq<char>>,
    html_url: Seq<char>,
) -> ItemView {
    ItemView {
        name: text::split(full_name, '/').last(),
        description: match description {
            Some(d) => d,
            None => Seq::empty(),
        },
        source: "github"@,
        spec: "github:"@ + full_name,
        url: html_url,
    }
}

/// What repositories are shown as.
pub open spec fn repo_items(repos: Seq<GhRepo>) -> Seq<ItemView> {
    Seq::new(
        repos.len(),
        |i: int| repo_item(repos[i].full_name@, text::opt(repos[i].description), repos[i].html_url@),
    )
}

proof fn lemma_split_not_empty(s: Seq<char>, c: char)
    ensures
        text::split(s, c).len() > 0,
{
}

fn show_repo(repo: GhRepo) -> (r: MarketplaceItem)
    ensures
        r@ == repo_item(repo.full_name@, text::opt(repo.description), repo.html_url@),
{
    let s = chars(repo.full_name.as_str());
    let pieces = split_at_char(s.as_slice(), '/');
    proof {
        lemma_split_not_empty(s@, '/');
        assert(text::char_vecs(pieces@).len() == pieces@.len());
    }
    let name = string_of(pieces[pieces.len() - 1].as_slice());
    assert(text::char_vecs(pieces@).last() == name@);
    let description = match repo.description {
        Some(d) => d,
        None => String::new(),
    };
    let r = MarketplaceItem {
        name,
        description,
        source: "github".to_owned(),
        spec: cat("github:", repo.full_name.as_str()),
        url: repo.html_url,
    };
    assert(r@ =~= repo_item(repo.full_name@, text::opt(repo.description), repo.html_url@));
    r
}

/// The plugins among the repositories that a search has found.
pub fn topic_items(repos: Vec<GhRepo>) -> (r: Vec<MarketplaceItem>)
    ensures
        items(r@) == repo_items(repos@),
{
    let ghost all = repos@;
    let mut rest = repos;
    let mut out: Vec<MarketplaceItem> = Vec::new();
    while rest.len() > 0
        invariant
            out@.len() + rest@.len() == all.len(),
            rest@ == all.subrange(out@.len() as int, all.len() as int),
            items(out@) == repo_items(all).subrange(0, out@.len() as int),
        decreases rest@.len(),
    {
        let ghost before = out@;
        let ghost i = out@.len() as int;
        let repo = rest.remove(0);
        assert(repo == all[i]);
        let item = show_repo(repo);
        out.push(item);
        assert(items(out@) =~= items(before).push(repo_items(all)[i]));
        assert(items(out@) =~= repo_items(all).subrange(0, i + 1));
        assert(rest@ =~= all.subrange(i + 1, all.len() as int));
    }
    assert(repo_items(all).subrange(0, all.len() as int) =~= repo_items(all));
    out
}

/// What the user is told of a search of GitHub that was answered with a status other than
/// success. `status` is its number and `shown` the number with its name.
pub fn topic_error(status: u16, shown: &str) -> (r: String)
    ensures
        r@ == (if status == 403 || status == 429 {
            "GitHub 搜索暂时受限（免费额度用完），稍后再试。"@
        } else {
            "GitHub 搜索失败（HTTP "@ + shown@ + "）。"@
        }),
{
    if status == 403 || status == 429 {
        "GitHub 搜索暂时受限（免费额度用完），稍后再试。".to_owned()
    } else {
        cat3("GitHub 搜索失败（HTTP ", shown, "）。")
    }
}

/// Where the catalogue is looked for, in order.
pub open spec fn catalogue_addresses() -> Seq<Seq<char>> {
    seq![
        "https://raw.githubusercontent.com/awesome-dsh-plugin/awesome-dsh-plugin/master/README.md"@,
        "https://raw.githubusercontent.com/awesome-dsh-plugin/awesome-dsh-plugin/master/README.zh.md"@,
        "https://raw.githubusercontent.com/awesome-dsh-plugin/awesome-dsh-plugin/main/README.md"@,
        "https://raw.githubusercontent.com/awesome-dsh-plugin/awesome-dsh-plugin/main/README.zh.md"@,
    ]
}

/// Where the catalogue is looked for, in order. The first text that is found is the catalogue.
pub fn catalogue_urls() -> (r: Vec<String>)
    ensures
        text::strs(r@) == catalogue_addresses(),
{
    let mut out: Vec<String> = Vec::new();
    out.push(
        "https://raw.githubusercontent.com/awesome-dsh-plugin/awesome-dsh-plugin/master/README.md".to_owned(),
    );
    out.push(
        "https://raw.githubusercontent.com/awesome-dsh-plugin/awesome-dsh-plugin/master/README.zh.md".to_owned(),
    );
    out.push(
        "https://raw.githubusercontent.com/awesome-dsh-plugin/awesome-dsh-plugin/main/README.md".to_owned(),
    );
    out.push(
        "https://raw.githubusercontent.com/awesome-dsh-plugin/awesome-dsh-plugin/main/README.zh.md".to_owned(),
    );
    assert(text::strs(out@) =~= catalogue_addresses());
    out
}

/// Whether one of the plugins is installed in this way.
pub open spec fn has_spec(list: Seq<ItemView>, spec: Seq<char>) -> bool {
    exists|i: int| 0 <= i < list.len() && (#[trigger] list[i]).spec == spec
}

/// The plugins, each way of installation once: the first.
pub open spec fn distinct(list: Seq<ItemView>) -> Seq<ItemView>
    decreases list.len(),
{
    if list.len() == 0 {
        Seq::empty()
    } else {
        let before = distinct(list.drop_last());
        if has_spec(before, list.last().spec) {
            before
        } else {
            before.push(list.last())
        }
    }
}

/// Whether a plugin's name or description holds the words, upper and lower case being the same.
pub open spec fn matches_words(item: ItemView, words: Seq<char>) -> bool {
    text::contains(text::lowercase(item.name), words) || text::contains(
        text::lowercase(item.description),
        words,
    )
}

/// The plugins that match the words.
pub open spec fn matching(list: Seq<ItemView>, words: Seq<char>) -> Seq<ItemView>
    decreases list.len(),
{
    if list.len() == 0 {
        Seq::empty()
    } else if matches_words(list.last(), words) {
        matching(list.drop_last(), words).push(list.last())
    } else {
        matching(list.drop_last(), words)
    }
}

/// The first hundred of some plugins.
pub open spec fn first_hundred(list: Seq<ItemView>) -> Seq<ItemView> {
    if list.len() <= 100 {
        list
    } else {
        list.subrange(0, 100)
    }
}

/// What is shown of plugins when one looks for words. Blank words look for nothing.
pub open spec fn shown(list: Seq<ItemView>, search: Option<Seq<char>>) -> Seq<ItemView> {
    first_hundred(
        match search {
            Some(q) if text::trim(q).len() > 0 => matching(distinct(list), text::lowercase(q)),
            _ => distinct(list),
        },
    )
}

fn spec_is_in(list: &[MarketplaceItem], spec: &str) -> (r: bool)
    ensures
        r == has_spec(items(list@), spec@),
{
    for i in 0..list.len()
        invariant
            forall|k: int| 0 <= k < i ==> (#[trigger] items(list@)[k]).spec != spec@,
    {
        if same(list[i].spec.as_str(), spec) {
            assert(items(list@)[i as int].spec == spec@);
            return true;
        }
    }
    false
}

fn keep_distinct(list: Vec<MarketplaceItem>) -> (r: Vec<MarketplaceItem>)
    ensures
        items(r@) == distinct(items(list@)),
{
    let ghost all = items(list@);
    let mut rest = list;
    let mut out: Vec<MarketplaceItem> = Vec::new();
    let ghost mut done: int = 0;
    assert(items(out@) =~= distinct(all.subrange(0, 0)));
    while rest.len() > 0
        invariant
            0 <= done,
            done + rest@.len() == all.len(),
            items(rest@) == all.subrange(done, all.len() as int),
            items(out@) == distinct(all.subrange(0, done)),
        decreases rest@.len(),
    {
        let ghost held = rest@;
        let ghost before = out@;
        let item = rest.remove(0);
        assert(items(held)[0] == item@);
        assert(items(rest@) =~= all.subrange(done + 1, all.len() as int)) by {
            assert forall|k: int| 0 <= k < rest@.len() implies items(rest@)[k] == all[done + 1
                + k] by {
                assert(items(held)[k + 1] == all[done + 1 + k]);
            }
        }
        assert(all.subrange(0, done + 1).drop_last() =~= all.subrange(0, done));
        assert(all.subrange(0, done + 1).last() == item@);
        if !spec_is_in(out.as_slice(), item.spec.as_str()) {
            out.push(item);
            assert(items(out@) =~= items(before).push(item@));
        }
        proof {
            done = done + 1;
        }
    }
    assert(all.subrange(0, all.len() as int) =~= all);
    out
}

fn keep_matching(list: Vec<MarketplaceItem>, words: &str) -> (r: Vec<MarketplaceItem>)
    ensures
        items(r@) == matching(items(list@), words@),
{
    let ghost all = items(list@);
    let mut rest = list;
    let mut out: Vec<MarketplaceItem> = Vec::new();
    let ghost mut done: int = 0;
    assert(items(out@) =~= matching(all.subrange(0, 0), words@));
    while rest.len() > 0
        invariant
            0 <= done,
            done + rest@.len() == all.len(),
            items(rest@) == all.subrange(done, all.len() as int),
            items(out@) == matching(all.subrange(0, done), words@),
        decreases rest@.len(),
    {
        let ghost held = rest@;
        let ghost before = out@;
        let item = rest.remove(0);
        assert(items(held)[0] == item@);
        assert(items(rest@) =~= all.subrange(done + 1, all.len() as int)) by {
            assert forall|k: int| 0 <= k < rest@.len() implies items(rest@)[k] == all[done + 1
                + k] by {
                assert(items(held)[k + 1] == all[done + 1 + k]);
            }
        }
        assert(all.subrange(0, done + 1).drop_last() =~= all.subrange(0, done));
        assert(all.subrange(0, done + 1).last() == item@);
        if holds(to_lower(item.name.as_str()).as_str(), words) || holds(
            to_lower(item.description.as_str()).as_str(),
            words,
        ) {
            out.push(item);
            assert(items(out@) =~= items(before).push(item@));
        }
        proof {
            done = done + 1;
        }
    }
    assert(all.subrange(0, all.len() as int) =~= all);
    out
}

/// What the catalogue and the search have brought, together.
pub open spec fn gathered(readme: Option<Seq<char>>, found: Seq<ItemView>) -> Seq<ItemView> {
    (match readme {
        Some(text) => listed_in(text::lines(text)),
        None => Seq::empty(),
    }) + found
}

/// What a search of repositories has brought.
pub open spec fn found_items(topic: Result<Vec<GhRepo>, String>) -> Seq<ItemView> {
    match topic {
        Ok(repos) => repo_items(repos@),
        Err(_) => Seq::empty(),
    }
}

/// What is shown of the catalogue. `readme` is its text, where one was found; `topic` is what
/// the search of repositories brought, or why it failed; `search` is what the user looks for.
pub fn plugins_marketplace(
    readme: Option<&str>,
    topic: Result<Vec<GhRepo>, String>,
    search: Option<&str>,
) -> (r: MarketplaceResult)
    ensures
        items(r.items@) == shown(
            gathered(
                text::opt_str(readme),
                found_items(topic),
            ),
            text::opt_str(search),
        ),
        text::strs(r.errors@) == (if readme is None {
            seq!["市场目录加载失败（网络不可达？）"@]
        } else {
            Seq::empty()
        }) + (match topic {
            Ok(_) => Seq::empty(),
            Err(e) => seq![e@],
        }),
{
    let mut errors: Vec<String> = Vec::new();
    let mut all: Vec<MarketplaceItem> = match readme {
        Some(text) => parse_awesome_readme(text),
        None => {
            errors.push("市场目录加载失败（网络不可达？）".to_owned());
            Vec::new()
        },
    };
    let ghost first = items(all@);
    let ghost second = found_items(topic);
    match topic {
        Ok(repos) => {
            let mut more = topic_items(repos);
            let ghost held = all@;
            let ghost extra = more@;
            all.append(&mut more);
            assert(items(all@) =~= items(held) + items(extra));
        },
        Err(e) => {
            errors.push(e);
        },
    }
    assert(items(all@) =~= first + second);
    let kept = keep_distinct(all);
    let mut result = match search {
        Some(q) => {
            let s = chars(q);
            if cut_both(s.as_slice()).len() > 0 {
                keep_matching(kept, to_lower(q).as_str())
            } else {
                kept
            }
        },
        None => kept,
    };
    let ghost full = items(result@);
    if result.len() > 100 {
        result.truncate(100);
    }
    assert(items(result@) =~= first_hundred(full));
    MarketplaceResult { items: result, errors }
}

/// Of what is shown, no two are installed in the same way, and there are at most a hundred.
pub proof fn shown_plugins_are_distinct(list: Seq<ItemView>, search: Option<Seq<char>>)
    ensures
        shown(list, search).len() <= 100,
        forall|i: int, j: int|
            0 <= i < j < shown(list, search).len() ==> (#[trigger] shown(list, search)[i]).spec
                != (#[trigger] shown(list, search)[j]).spec,
{
    lemma_distinct(list);
    if let Some(q) = search {
        lemma_matching(distinct(list), text::lowercase(q));
    }
}

proof fn lemma_distinct(list: Seq<ItemView>)
    ensures
        forall|i: int, j: int|
            0 <= i < j < distinct(list).len() ==> (#[trigger] distinct(list)[i]).spec != (
            #[trigger] distinct(list)[j]).spec,
    decreases list.len(),
{
    if list.len() > 0 {
        lemma_distinct(list.drop_last());
        let before = distinct(list.drop_last());
        assert forall|i: int, j: int| 0 <= i < j < distinct(list).len() implies (
        #[trigger] distinct(list)[i]).spec != (#[trigger] distinct(list)[j]).spec by {
            assert(distinct(list)[i] == before[i]);
            if j < before.len() {
                assert(distinct(list)[j] == before[j]);
            }
        }
    }
}

proof fn lemma_matching(list: Seq<ItemView>, words: Seq<char>)
    requires
        forall|i: int, j: int|
            0 <= i < j < list.len() ==> (#[trigger] list[i]).spec != (#[trigger] list[j]).spec,
    ensures
        forall|i: int|
            0 <= i < matching(list, words).len() ==> list.contains(
                #[trigger] matching(list, words)[i],
            ),
        forall|i: int, j: int|
            0 <= i < j < matching(list, words).len() ==> (#[trigger] matching(list, words)[i]).spec
                != (#[trigger] matching(list, words)[j]).spec,
    decreases list.len(),
{
    if list.len() > 0 {
        let front = list.drop_last();
        let before = matching(front, words);
        let all = matching(list, words);
        assert forall|i: int, j: int| 0 <= i < j < front.len() implies (
        #[trigger] front[i]).spec != (#[trigger] front[j]).spec by {
            assert(front[i] == list[i] && front[j] == list[j]);
        }
        lemma_matching(front, words);
        assert forall|i: int| 0 <= i < all.len() implies list.contains(#[trigger] all[i]) by {
            if i < before.len() {
                assert(all[i] == before[i]);
                let k = choose|k: int| 0 <= k < front.len() && front[k] == before[i];
                assert(list[k] == all[i]);
            } else {
                assert(list[list.len() - 1] == all[i]);
            }
        }
        assert forall|i: int, j: int| 0 <= i < j < all.len() implies (#[trigger] all[i]).spec != (
        #[trigger] all[j]).spec by {
            assert(all[i] == before[i]);
            if j < before.len() {
                assert(all[j] == before[j]);
            } else {
                let k = choose|k: int| 0 <= k < front.len() && front[k] == before[i];
                assert(list[k] == before[i]);
                assert(list[list.len() - 1] == all[j]);
            }
        }
    }
}

proof fn lemma_matching_is_filter(list: Seq<ItemView>, words: Seq<char>)
    ensures
        matching(list, words) == list.filter(
            |item: ItemView|
                text::contains(text::lowercase(item.name), words) || text::contains(
                    text::lowercase(item.description),
                    words,
                ),
        ),
    decreases list.len(),
{
    reveal(Seq::filter);
    if list.len() > 0 {
        lemma_matching_is_filter(list.drop_last(), words);
    }
}

/// A search finds, of the plugins that there are, those whose name or whose description holds the
/// words, whatever the case of the letters, in their order, and no others. The first hundred are
/// shown. Without words all are found.
pub proof fn search_looks_at_name_and_description(list: Seq<ItemView>, q: Seq<char>)
    ensures
        text::trim(q).len() > 0 ==> ({
            let found = distinct(list).filter(
                |item: ItemView|
                    text::contains(text::lowercase(item.name), text::lowercase(q))
                        || text::contains(text::lowercase(item.description), text::lowercase(q)),
            );
            &&& shown(list, Some(q)).is_prefix_of(found)
            &&& found.len() <= 100 ==> shown(list, Some(q)) == found
            &&& found.len() > 100 ==> shown(list, Some(q)).len() == 100
        }),
        text::trim(q).len() == 0 ==> shown(list, Some(q)) == shown(list, None),
        shown(list, None).is_prefix_of(distinct(list)),
        distinct(list).len() <= 100 ==> shown(list, None) == distinct(list),
        distinct(list).len() > 100 ==> shown(list, None).len() == 100,
{
    lemma_matching_is_filter(distinct(list), text::lowercase(q));
}

/// A plugin whose name holds the words is found, and so is one whose description does; nothing is
/// found in which neither does.
pub proof fn every_match_is_found(list: Seq<ItemView>, q: Seq<char>, item: ItemView)
    requires
        distinct(list).contains(item),
    ensures
        matching(distinct(list), text::lowercase(q)).contains(item) <==> text::contains(
            text::lowercase(item.name),
            text::lowercase(q),
        ) || text::contains(text::lowercase(item.description), text::lowercase(q)),
{
    let words = text::lowercase(q);
    let pred = |i: ItemView|
        text::contains(text::lowercase(i.name), words) || text::contains(
            text::lowercase(i.description),
            words,
        );
    lemma_matching_is_filter(distinct(list), words);
    lemma_filter_only(distinct(list), pred);
    assert(distinct(list).filter(pred) == matching(distinct(list), words));
    if pred(item) {
        let k = choose|k: int| 0 <= k < distinct(list).len() && distinct(list)[k] == item;
        lemma_filter_has(distinct(list), pred, k);
    }
}

proof fn lemma_filter_only(list: Seq<ItemView>, pred: spec_fn(ItemView) -> bool)
    ensures
        forall|item: ItemView| #[trigger] list.filter(pred).contains(item) ==> pred(item),
    decreases list.len(),
{
    reveal(Seq::filter);
    if list.len() > 0 {
        let front = list.drop_last().filter(pred);
        lemma_filter_only(list.drop_last(), pred);
        assert forall|item: ItemView| #[trigger] list.filter(pred).contains(item) implies pred(
            item,
        ) by {
            let i = choose|i: int|
                0 <= i < list.filter(pred).len() && list.filter(pred)[i] == item;
            if i < front.len() {
                assert(front[i] == item);
                assert(front.contains(item));
            }
        }
    }
}

proof fn lemma_filter_has(list: Seq<ItemView>, pred: spec_fn(ItemView) -> bool, k: int)
    requires
        0 <= k < list.len(),
        pred(list[k]),
    ensures
        list.filter(pred).contains(list[k]),
    decreases list.len(),
{
    reveal(Seq::filter);
    let front = list.drop_last();
    if k < front.len() {
        lemma_filter_has(front, pred, k);
        assert(front[k] == list[k]);
        let i = choose|i: int| 0 <= i < front.filter(pred).len() && front.filter(pred)[i] == list[k];
        assert(list.filter(pred)[i] == list[k]);
    } else {
        assert(list.filter(pred)[front.filter(pred).len() as int] == list[k]);
    }
}

/// Whether no plugin before this one is installed in the same way.
pub open spec fn first_of_its_kind(list: Seq<ItemView>, i: int) -> bool {
    forall|j: int| 0 <= j < i ==> (#[trigger] list[j]).spec != list[i].spec
}

/// Of plugins that are installed in the same way the first is kept, and it alone; the plugins stay
/// in their order.
pub proof fn first_of_a_kind_is_kept(list: Seq<ItemView>)
    ensures
        forall|i: int|
            0 <= i < list.len() && first_of_its_kind(list, i) ==> distinct(list).contains(
                #[trigger] list[i],
            ),
        forall|k: int|
            0 <= k < distinct(list).len() ==> exists|i: int|
                0 <= i < list.len() && #[trigger] first_of_its_kind(list, i) && list[i]
                    == #[trigger] distinct(list)[k],
        forall|n: int|
            0 <= n <= list.len() ==> distinct(#[trigger] list.subrange(0, n)).is_prefix_of(
                distinct(list),
            ),
    decreases list.len(),
{
    let all = distinct(list);
    if list.len() == 0 {
        assert forall|n: int| 0 <= n <= list.len() implies distinct(
            #[trigger] list.subrange(0, n),
        ).is_prefix_of(all) by {
            assert(list.subrange(0, n) =~= list);
        }
    } else {
        let front = list.drop_last();
        let before = distinct(front);
        let last = list.len() - 1;
        first_of_a_kind_is_kept(front);
        lemma_last_of_kind(list);
        assert(before.is_prefix_of(all));
        assert forall|i: int| 0 <= i < list.len() && first_of_its_kind(list, i) implies all.contains(
            #[trigger] list[i],
        ) by {
            if i < last {
                lemma_first_in_front(list, i);
                assert(front[i] == list[i]);
                let k = choose|k: int| 0 <= k < before.len() && before[k] == list[i];
                assert(all[k] == list[i]);
            } else {
                assert(all[before.len() as int] == list[i]);
            }
        }
        assert forall|k: int| 0 <= k < all.len() implies exists|i: int|
            0 <= i < list.len() && #[trigger] first_of_its_kind(list, i) && list[i]
                == #[trigger] all[k] by {
            if k < before.len() {
                assert(all[k] == before[k]);
                let i = choose|i: int|
                    0 <= i < front.len() && #[trigger] first_of_its_kind(front, i) && front[i]
                        == before[k];
                lemma_first_in_front(list, i);
                assert(first_of_its_kind(list, i) && list[i] == all[k]);
            } else {
                assert(first_of_its_kind(list, last) && list[last] == all[k]);
            }
        }
        assert forall|n: int| 0 <= n <= list.len() implies distinct(
            #[trigger] list.subrange(0, n),
        ).is_prefix_of(all) by {
            if n == list.len() {
                assert(list.subrange(0, n) =~= list);
            } else {
                assert(list.subrange(0, n) =~= front.subrange(0, n));
            }
        }
    }
}

proof fn lemma_first_in_front(list: Seq<ItemView>, i: int)
    requires
        0 <= i < list.len() - 1,
    ensures
        first_of_its_kind(list.drop_last(), i) == first_of_its_kind(list, i),
{
    let front = list.drop_last();
    if first_of_its_kind(list, i) {
        assert forall|j: int| 0 <= j < i implies (#[trigger] front[j]).spec != front[i].spec by {
            assert(front[j] == list[j]);
        }
    }
    if first_of_its_kind(front, i) {
        assert forall|j: int| 0 <= j < i implies (#[trigger] list[j]).spec != list[i].spec by {
            assert(front[j] == list[j]);
        }
    }
}

proof fn lemma_last_of_kind(list: Seq<ItemView>)
    requires
        list.len() > 0,
    ensures
        has_spec(distinct(list.drop_last()), list.last().spec) == !first_of_its_kind(
            list,
            list.len() - 1,
        ),
{
    let front = list.drop_last();
    let before = distinct(front);
    let last = list.len() - 1;
    lemma_specs_kept(front);
    lemma_kept_specs(front);
    if has_spec(before, list[last].spec) {
        let k = choose|k: int|
            0 <= k < before.len() && (#[trigger] before[k]).spec == list[last].spec;
        assert(has_spec(front, before[k].spec));
        let j = choose|j: int| 0 <= j < front.len() && (#[trigger] front[j]).spec == before[k].spec;
        assert(list[j].spec == list[last].spec);
    }
    if !first_of_its_kind(list, last) {
        let j = choose|j: int| 0 <= j < last && (#[trigger] list[j]).spec == list[last].spec;
        assert(front[j] == list[j]);
    }
}

proof fn lemma_kept_specs(list: Seq<ItemView>)
    ensures
        forall|k: int|
            0 <= k < distinct(list).len() ==> has_spec(list, (#[trigger] distinct(list)[k]).spec),
    decreases list.len(),
{
    if list.len() > 0 {
        let front = list.drop_last();
        let before = distinct(front);
        lemma_kept_specs(front);
        assert forall|k: int| 0 <= k < distinct(list).len() implies has_spec(
            list,
            (#[trigger] distinct(list)[k]).spec,
        ) by {
            if k < before.len() {
                assert(distinct(list)[k] == before[k]);
                let j = choose|j: int|
                    0 <= j < front.len() && (#[trigger] front[j]).spec == before[k].spec;
                assert(list[j].spec == before[k].spec);
            } else {
                assert(list[list.len() - 1].spec == distinct(list)[k].spec);
            }
        }
    }
}

proof fn lemma_specs_kept(list: Seq<ItemView>)
    ensures
        forall|j: int| 0 <= j < list.len() ==> has_spec(distinct(list), (#[trigger] list[j]).spec),
    decreases list.len(),
{
    if list.len() > 0 {
        let front = list.drop_last();
        let before = distinct(front);
        lemma_specs_kept(front);
        assert forall|j: int| 0 <= j < list.len() implies has_spec(
            distinct(list),
            (#[trigger] list[j]).spec,
        ) by {
            if j < front.len() {
                assert(front[j] == list[j]);
                let k = choose|k: int|
                    0 <= k < before.len() && (#[trigger] before[k]).spec == list[j].spec;
                assert(distinct(list)[k].spec == list[j].spec);
            } else if !has_spec(before, list[j].spec) {
                assert(distinct(list)[before.len() as int].spec == list[j].spec);
            } else {
                let k = choose|k: int|
                    0 <= k < before.len() && (#[trigger] before[k]).spec == list[j].spec;
                assert(distinct(list)[k].spec == list[j].spec);
            }
        }
    }
}

/// A repository that was found is shown under the last part of its name, with its description and its
/// page, and is installed from GitHub under its full name.
pub proof fn repository_is_shown_under_its_name(
    owner: Seq<char>,
    repo: Seq<char>,
    description: Option<Seq<char>>,
    page: Seq<char>,
)
    requires
        !owner.contains('/'),
        !repo.contains('/'),
    ensures
        ({
            let item = repo_item(owner + seq!['/'] + repo, description, page);
            &&& item.name == repo
            &&& item.spec == "github:"@ + (owner + seq!['/'] + repo)
            &&& item.url == page
            &&& item.source == "github"@
            &&& description matches Some(d) ==> item.description == d
            &&& description is None ==> item.description.len() == 0
        }),
{
    lemma_split_in_two(owner, repo);
}

proof fn lemma_split_in_two(a: Seq<char>, b: Seq<char>)
    requires
        !a.contains('/'),
        !b.contains('/'),
    ensures
        text::split(a + seq!['/'] + b, '/') == seq![a, b],
{
    let s = a + seq!['/'] + b;
    text::lemma_upto(s, '/');
    text::lemma_upto(b, '/');
    let k = text::upto(s, '/') as int;
    assert(s[a.len() as int] == '/');
    if k < a.len() {
        assert(s[k] == a[k]);
        assert(a.contains(a[k]));
    }
    assert(s.subrange(0, k) =~= a);
    assert(s.subrange(k + 1, s.len() as int) =~= b);
    if text::upto(b, '/') < b.len() {
        assert(b.contains(b[text::upto(b, '/') as int]));
    }
    assert(text::split(b, '/') =~= seq![b]);
    assert(text::split(s, '/') =~= seq![a, b]);
}

/// A line of the catalogue names a plugin in square brackets and its address in round ones; what
/// stands behind, without dashes and white space around it, describes it in at most a hundred and
/// sixty characters. A line that does not begin so names none.
pub proof fn catalogue_line_is_read(
    name: Seq<char>,
    url: Seq<char>,
    rest: Seq<char>,
    line: Seq<char>,
)
    requires
        text::find(name + "]("@ + url + seq![')'] + rest, "]("@) == Some(name.len() as int),
        !url.contains(')'),
    ensures
        listed("- ["@ + (name + "]("@ + url + seq![')'] + rest)) == linked(
            name,
            url,
            described(rest),
        ),
        described(rest).len() <= 160,
        !"- ["@.is_prefix_of(text::trim_start(line)) ==> listed(line) is None,
{
    let tail = name + "]("@ + url + seq![')'] + rest;
    let whole = "- ["@ + tail;
    reveal_strlit("- [");
    reveal_strlit("](");
    assert(whole[0] == '-');
    assert(text::trim_start(whole) == whole);
    assert("- ["@.is_prefix_of(whole));
    assert(whole.subrange(3, whole.len() as int) =~= tail);
    let after = tail.subrange((name.len() + 2) as int, tail.len() as int);
    assert(after =~= url + seq![')'] + rest);
    text::lemma_upto(after, ')');
    let k = text::upto(after, ')') as int;
    assert(after[url.len() as int] == ')');
    if k < url.len() {
        assert(after[k] == url[k]);
        assert(url.contains(url[k]));
    }
    assert(k == url.len());
    assert(tail.subrange(0, name.len() as int) =~= name);
    assert(after.subrange(0, k) =~= url);
    assert(after.subrange(k + 1, after.len() as int) =~= rest);
}

/// A page of the npm registry stands for the package that it shows, and is installed under that
/// package's name.
pub proof fn npm_page_is_its_package(
    front: Seq<char>,
    pkg: Seq<char>,
    name: Seq<char>,
    description: Seq<char>,
)
    requires
        text::find(front + "npmjs.com/package/"@ + pkg, "npmjs.com/package/"@) == Some(
            front.len() as int,
        ),
        !text::contains(pkg, "%2F"@),
        !text::contains(pkg, "%2f"@),
    ensures
        linked(name, front + "npmjs.com/package/"@ + pkg, description) == Some(
            ItemView {
                name: if name.len() > 0 {
                    name
                } else {
                    pkg
                },
                description,
                source: "npm"@,
                spec: pkg,
                url: front + "npmjs.com/package/"@ + pkg,
            },
        ),
{
    let url = front + "npmjs.com/package/"@ + pkg;
    assert(url.subrange((front.len() + "npmjs.com/package/"@.len()) as int, url.len() as int) =~= pkg);
    reveal_strlit("%2F");
    reveal_strlit("%2f");
    text::first_occurrence_is_replaced(pkg, "%2F"@, "/"@, 0);
    text::first_occurrence_is_replaced(pkg, "%2f"@, "/"@, 0);
}

/// A page of GitHub stands for the repository that it shows, and is installed from there; the ending
/// of a clone address is left out.
pub proof fn github_page_is_its_repository(
    front: Seq<char>,
    owner: Seq<char>,
    repo: Seq<char>,
    name: Seq<char>,
    description: Seq<char>,
)
    requires
        owner.len() > 0,
        repo.len() > 0,
        !owner.contains('/'),
        !repo.contains('/'),
        !".git"@.is_suffix_of(repo),
        !text::contains(front + "github.com/"@ + (owner + seq!['/'] + repo), "npmjs.com/package/"@),
        text::find(front + "github.com/"@ + (owner + seq!['/'] + repo), "github.com/"@) == Some(
            front.len() as int,
        ),
    ensures
        linked(name, front + "github.com/"@ + (owner + seq!['/'] + repo), description) == Some(
            ItemView {
                name: if name.len() > 0 {
                    name
                } else {
                    repo
                },
                description,
                source: "github"@,
                spec: "github:"@ + owner + "/"@ + repo,
                url: "https://github.com/"@ + owner + "/"@ + repo,
            },
        ),
{
    let tail = owner + seq!['/'] + repo;
    let url = front + "github.com/"@ + tail;
    text::lemma_contains_find(url, "npmjs.com/package/"@);
    assert(url.subrange((front.len() + "github.com/"@.len()) as int, url.len() as int) =~= tail);
    lemma_split_in_two(owner, repo);
    let parts = seq![owner, repo];
    reveal_with_fuel(text::filled, 4);
    assert(parts.drop_last() =~= seq![owner]);
    assert(seq![owner].drop_last() =~= Seq::<Seq<char>>::empty());
    assert(text::filled(parts) =~= parts);
    assert(text::strip_end_all(repo, ".git"@) == repo);
}

/// What is shown of the catalogue are the plugins of its text and then those of the search, each once,
/// and where the user looks for something only those whose name or description holds it. What could
/// not be had is told.
pub proof fn marketplace_shows_what_is_looked_for(
    readme: Option<&str>,
    topic: Result<Vec<GhRepo>, String>,
    search: Option<&str>,
    r: MarketplaceResult,
)
    requires
        call_ensures(plugins_marketplace, (readme, topic, search), r),
    ensures
        ({
            let all = distinct(
                (if readme is Some {
                    listed_in(text::lines(readme->0@))
                } else {
                    Seq::empty()
                }) + (if topic is Ok {
                    repo_items(topic->Ok_0@)
                } else {
                    Seq::empty()
                }),
            );
            let found = if search is Some && text::trim(search->0@).len() > 0 {
                all.filter(
                    |item: ItemView|
                        text::contains(
                            text::lowercase(item.name),
                            text::lowercase(search->0@),
                        ) || text::contains(
                            text::lowercase(item.description),
                            text::lowercase(search->0@),
                        ),
                )
            } else {
                all
            };
            &&& items(r.items@).is_prefix_of(found)
            &&& r.items@.len() == (if found.len() <= 100 {
                found.len()
            } else {
                100
            })
        }),
        readme is Some && topic is Ok ==> r.errors@.len() == 0,
        topic matches Err(e) ==> r.errors@.len() > 0 && text::strs(r.errors@).last() == e@,
        readme is None ==> r.errors@.len() > 0 && text::strs(r.errors@)[0]
            == "市场目录加载失败（网络不可达？）"@,
{
    let list = gathered(text::opt_str(readme), found_items(topic));
    let first = if readme is Some {
        listed_in(text::lines(readme->0@))
    } else {
        Seq::empty()
    };
    let second = if topic is Ok {
        repo_items(topic->Ok_0@)
    } else {
        Seq::empty()
    };
    assert(list =~= first + second);
    if search is Some {
        search_looks_at_name_and_description(list, search->0@);
    } else {
        search_looks_at_name_and_description(list, Seq::empty());
    }
    assert(items(r.items@).len() == r.items@.len());
    assert(text::strs(r.errors@).len() == r.errors@.len());
}

/// Every line of the catalogue that names a plugin gives one, in the order of the lines.
pub proof fn every_line_is_read(text: &str, r: Vec<MarketplaceItem>)
    requires
        call_ensures(parse_awesome_readme, (text,), r),
    ensures
        items(r@) == text::lines(text@).filter(|l: Seq<char>| listed(l) is Some).map_values(
            |l: Seq<char>| listed(l)->0,
        ),
{
    lemma_listed_in(text::lines(text@));
}

proof fn lemma_listed_in(ls: Seq<Seq<char>>)
    ensures
        listed_in(ls) == ls.filter(|l: Seq<char>| listed(l) is Some).map_values(
            |l: Seq<char>| listed(l)->0,
        ),
    decreases ls.len(),
{
    let names = |l: Seq<char>| listed(l) is Some;
    let item = |l: Seq<char>| listed(l)->0;
    reveal(Seq::filter);
    if ls.len() > 0 {
        lemma_listed_in(ls.drop_last());
        let front = ls.drop_last().filter(names);
        if names(ls.last()) {
            assert(ls.filter(names) == front.push(ls.last()));
            assert(front.push(ls.last()).map_values(item) =~= front.map_values(item).push(
                item(ls.last()),
            ));
        } else {
            assert(ls.filter(names) == front);
        }
    } else {
        assert(listed_in(ls) =~= ls.filter(names).map_values(item));
    }
}

/// Every repository that was found gives a plugin, in their order.
pub proof fn every_repository_is_listed(repos: Vec<GhRepo>, r: Vec<MarketplaceItem>)
    requires
        call_ensures(topic_items, (repos,), r),
    ensures
        r@.len() == repos@.len(),
        forall|i: int|
            0 <= i < repos@.len() ==> (#[trigger] r@[i])@.spec == "github:"@ + repos@[i].full_name@
                && r@[i]@.url == repos@[i].html_url@ && (repos@[i].description matches Some(d)
                ==> r@[i]@.description == d@),
{
    assert(items(r@).len() == r@.len());
    assert forall|i: int| 0 <= i < repos@.len() implies (#[trigger] r@[i])@.spec == "github:"@
        + repos@[i].full_name@ && r@[i]@.url == repos@[i].html_url@ && (
    repos@[i].description matches Some(d) ==> r@[i]@.description == d@) by {
        assert(items(r@)[i] == r@[i]@);
    }
}

/// The catalogue is sought in both of its branches, in English before Chinese, and a search that was
/// refused for its number is told apart from one that failed.
pub proof fn catalogue_is_sought_in_both_branches(
    status: u16,
    shown: &str,
    urls: Vec<String>,
    told: String,
)
    requires
        call_ensures(catalogue_urls, (), urls),
        call_ensures(topic_error, (status, shown), told),
    ensures
        text::strs(urls@) == seq![
            "https://raw.githubusercontent.com/awesome-dsh-plugin/awesome-dsh-plugin/master/README.md"@,
            "https://raw.githubusercontent.com/awesome-dsh-plugin/awesome-dsh-plugin/master/README.zh.md"@,
            "https://raw.githubusercontent.com/awesome-dsh-plugin/awesome-dsh-plugin/main/README.md"@,
            "https://raw.githubusercontent.com/awesome-dsh-plugin/awesome-dsh-plugin/main/README.zh.md"@,
        ],
        status == 403 || status == 429 ==> told@ == "GitHub 搜索暂时受限（免费额度用完），稍后再试。"@,
        status != 403 && status != 429 ==> told@ == "GitHub 搜索失败（HTTP "@ + shown@ + "）。"@,
{
}

/// What describes a plugin stands behind a dash, without it and without the white space around it.
pub proof fn description_stands_behind_the_dash(d: Seq<char>)
    requires
        d.len() > 0,
        !text::space(d[0]),
        !text::space(d.last()),
        d[0] != '-' && d[0] != '—' && d[0] != '–',
    ensures
        d.len() <= 160 ==> described(seq![' ', '-', ' '] + d) == d,
        d.len() <= 160 ==> described(seq![' '] + d) == d,
        d.len() > 160 ==> described(seq![' ', '-', ' '] + d) == d.subrange(0, 160),
{
    lemma_trimmed(d);
    let a = seq![' ', '-', ' '] + d;
    let b = seq!['-', ' '] + d;
    let c = seq![' '] + d;
    assert(a[0] == ' ' && b[0] == '-' && c[0] == ' ');
    assert(a.subrange(1, a.len() as int) =~= b);
    assert(b.subrange(1, b.len() as int) =~= c);
    assert(c.subrange(1, c.len() as int) =~= d);
    assert(a.last() == d.last() && b.last() == d.last() && c.last() == d.last());
    assert(text::trim_start(b) == b);
    assert(text::trim_start(a) == b);
    assert(text::trim_end(b) == b);
    assert(text::trim(a) == b);
    let hyphen = seq!['-'];
    assert(hyphen[0] == '-');
    assert(hyphen.contains('-'));
    assert(text::strip_start(c, hyphen) == c);
    assert(text::strip_start(b, hyphen) == c);
    assert(text::strip_start(c, seq!['—']) == c);
    assert(text::strip_start(c, seq!['–']) == c);
    assert(text::trim_start(c) == d);
    assert(text::trim(c) == d);
    assert(text::strip_start(d, hyphen) == d);
    assert(text::strip_start(d, seq!['—']) == d);
    assert(text::strip_start(d, seq!['–']) == d);
}

proof fn lemma_trimmed(d: Seq<char>)
    requires
        d.len() > 0,
        !text::space(d[0]),
        !text::space(d.last()),
    ensures
        text::trim_start(d) == d,
        text::trim_end(d) == d,
        text::trim(d) == d,
{
}

} // verus!
