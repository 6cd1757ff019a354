//! The body a draft release starts with: a marked place for the release's
//! prose, GitHub's generated notes, and every person who authored or
//! co-authored a commit in the release.

use vstd::prelude::*;
use vstd::string::*;
use serde_json::Value;

use crate::release::version::{parsed_tag, precedes, version_text, ReleaseTag};
use crate::text::{ends_with, owned};

verus! {

/// The highest release in `published` below `tag`, among the texts that
/// parse as release tags.
pub open spec fn is_release_below(text: Seq<char>, tag: (u64, u64, u64)) -> bool {
    parsed_tag(text) is Ok && precedes(parsed_tag(text).unwrap(), tag)
}

/// The highest release in `published` below `tag`. Texts that are not
/// release tags are ignored, and so is anything at or above `tag`, so a
/// patch published for an older line never becomes the starting point.
pub fn previous_release(published: &[&str], tag: ReleaseTag) -> (previous: Option<ReleaseTag>)
    ensures
        match previous {
            None => forall|i: int|
                0 <= i < published@.len() ==> !is_release_below(#[trigger] published@[i]@, tag@),
            Some(previous) => {
                &&& exists|i: int|
                    0 <= i < published@.len() && is_release_below(#[trigger] published@[i]@, tag@)
                        && parsed_tag(published@[i]@).unwrap() == previous@
                &&& forall|i: int|
                    0 <= i < published@.len() && is_release_below(#[trigger] published@[i]@, tag@)
                        ==> !precedes(previous@, parsed_tag(published@[i]@).unwrap())
            },
        },
{
    let mut best: Option<ReleaseTag> = None;
    let mut index: usize = 0;
    while index < published.len()
        invariant
            index <= published@.len(),
            match best {
                None => forall|i: int|
                    0 <= i < index ==> !is_release_below(#[trigger] published@[i]@, tag@),
                Some(best) => {
                    &&& exists|i: int|
                        0 <= i < index && is_release_below(#[trigger] published@[i]@, tag@)
                            && parsed_tag(published@[i]@).unwrap() == best@
                    &&& forall|i: int|
                        0 <= i < index && is_release_below(#[trigger] published@[i]@, tag@)
                            ==> !precedes(best@, parsed_tag(published@[i]@).unwrap())
                },
            },
        decreases published@.len() - index,
    {
        let text = published[index];
        match ReleaseTag::parse(text) {
            Ok(candidate) => {
                if candidate.is_before(&tag) {
                    let better = match best {
                        None => true,
                        Some(current) => current.is_before(&candidate),
                    };
                    if better {
                        best = Some(candidate);
                        assert(is_release_below(published@[index as int]@, tag@));
                    } else {
                        assert(is_release_below(published@[index as int]@, tag@));
                    }
                }
            },
            Err(_) => {},
        }
        index += 1;
    }
    best
}

/// Someone credited on a commit.
#[derive(Clone, Debug, PartialEq, Eq, PartialOrd, Ord, Hash)]
pub enum Contributor {
    /// A GitHub account, by login.
    Account(String),
    /// A name from a commit whose email matches no GitHub account.
    Unlinked(String),
}

/// How a contributor reads: `@login` for an account, the plain name
/// otherwise.
pub open spec fn contributor_text(contributor: Contributor) -> Seq<char> {
    match contributor {
        Contributor::Account(login) => seq!['@'] + login@,
        Contributor::Unlinked(name) => name@,
    }
}

/// The login or name a contributor is known by.
pub open spec fn contributor_name(contributor: Contributor) -> Seq<char> {
    match contributor {
        Contributor::Account(login) => login@,
        Contributor::Unlinked(name) => name@,
    }
}

/// Whether a contributor is a bot: GitHub ends every bot's name and login
/// with `[bot]`.
pub open spec fn is_bot_name(name: Seq<char>) -> bool {
    "[bot]"@.len() <= name.len() && name.skip(name.len() - "[bot]"@.len()) == "[bot]"@
}

impl Contributor {
    /// Whether this is a bot: GitHub ends every bot's name and login with
    /// `[bot]`, and no person's login can contain brackets.
    pub fn is_bot(&self) -> (bot: bool)
        ensures
            bot == is_bot_name(contributor_name(*self)),
    {
        match self {
            Contributor::Account(name) => ends_with(name.as_str(), "[bot]"),
            Contributor::Unlinked(name) => ends_with(name.as_str(), "[bot]"),
        }
    }

    /// `@login` for an account, the plain name otherwise.
    pub fn to_string(&self) -> (text: String)
        ensures
            text@ == contributor_text(*self),
    {
        match self {
            Contributor::Account(login) => {
                let mut text = owned("@");
                proof {
                    reveal_strlit("@");
                }
                text.append(login.as_str());
                text
            },
            Contributor::Unlinked(name) => owned(name.as_str()),
        }
    }
}

/// One author of a commit, as GitHub's GraphQL answer gives it: the login it
/// resolved to, if any, and the name on the commit, if any.
#[derive(Clone, Debug, PartialEq, Eq)]
pub struct Author {
    pub login: Option<String>,
    pub name: Option<String>,
}

/// One commit's authors, or `None` when the answer gives no list of them.
#[derive(Clone, Debug, PartialEq, Eq)]
pub struct CommitAuthors {
    pub authors: Option<Vec<Author>>,
}

/// One GraphQL answer: whether it reported errors, and its commits, or
/// `None` when it gives no list of them.
#[derive(Clone, Debug, PartialEq, Eq)]
pub struct Answer {
    pub has_errors: bool,
    pub nodes: Option<Vec<CommitAuthors>>,
}

/// An optional text as a plain value.
pub open spec fn text_option(text: Option<String>) -> Option<Seq<char>> {
    match text {
        Some(text) => Some(text@),
        None => None,
    }
}

/// An author as plain values: its login and its name.
pub type AuthorView = (Option<Seq<char>>, Option<Seq<char>>);

/// A commit's authors as plain values.
pub type CommitView = Option<Seq<AuthorView>>;

/// A GraphQL answer as plain values: whether it reported errors, and its
/// commits.
pub type AnswerView = (bool, Option<Seq<CommitView>>);

impl View for Author {
    type V = AuthorView;

    open spec fn view(&self) -> AuthorView {
        (text_option(self.login), text_option(self.name))
    }
}

impl View for CommitAuthors {
    type V = CommitView;

    open spec fn view(&self) -> CommitView {
        match self.authors {
            Some(authors) => Some(authors@.map_values(|author: Author| author@)),
            None => None,
        }
    }
}

impl View for Answer {
    type V = AnswerView;

    open spec fn view(&self) -> AnswerView {
        (
            self.has_errors,
            match self.nodes {
                Some(commits) => Some(commits@.map_values(|commit: CommitAuthors| commit@)),
                None => None,
            },
        )
    }
}

/// What GitHub's GraphQL `response` text says, read as JSON: whether it has
/// an `errors` member, and the authors of each commit under `data.nodes`;
/// `None` when the text is not JSON.
pub uninterp spec fn graphql_answer(response: Seq<char>) -> Option<AnswerView>;

/// Reads one GraphQL response.
///
/// Calls `serde_json::from_str` into a `serde_json::Value` and picks out of
/// it, as plain values, whether `errors` is present, and `data.nodes[].
/// authors.nodes[]`'s `user.login` and `name` where they are arrays and
/// strings. The contract names what is read, a function of the text alone;
/// what JSON parsing accepts is not stated.
#[verifier::external_body]
fn read_answer(response: &str) -> (answer: Option<Answer>)
    ensures
        match answer {
            Some(answer) => graphql_answer(response@) == Some(answer@),
            None => graphql_answer(response@) is None,
        },
{
    let value: Value = serde_json::from_str(response).ok()?;
    let author = |a: &Value| Author { login: a["user"]["login"].as_str().map(String::from), name: a["name"].as_str().map(String::from) };
    let commit = |c: &Value| CommitAuthors { authors: c["authors"]["nodes"].as_array().map(|a| a.iter().map(author).collect()) };
    Some(Answer { has_errors: value.get("errors").is_some(), nodes: value["data"]["nodes"].as_array().map(|c| c.iter().map(commit).collect()) })
}

/// Why the contributors could not be read from GitHub's answers, or the
/// release tag was refused.
#[derive(Debug)]
pub enum NotesError {
    Tag(crate::release::version::ParseTagError),
    Response(&'static str),
}

/// The contributor an author stands for: the account it resolved to, or
/// else the name on the commit; `None` when it has neither.
pub open spec fn author_contributor(author: Author) -> Option<Contributor> {
    match author.login {
        Some(login) => Some(Contributor::Account(login)),
        None => match author.name {
            Some(name) => Some(Contributor::Unlinked(name)),
            None => None,
        },
    }
}

/// The people among `authors`, in order, bots left out; or the refusal for
/// the first author that has neither a login nor a name.
pub open spec fn authors_credits(authors: Seq<Author>) -> Result<Seq<Contributor>, Seq<char>>
    decreases authors.len(),
{
    if authors.len() == 0 {
        Ok(Seq::empty())
    } else {
        match authors_credits(authors.drop_last()) {
            Err(message) => Err(message),
            Ok(credits) => match author_contributor(authors.last()) {
                None => Err("an author has no name"@),
                Some(contributor) => Ok(
                    if is_bot_name(contributor_name(contributor)) {
                        credits
                    } else {
                        credits.push(contributor)
                    },
                ),
            },
        }
    }
}

/// The people credited across `commits`, in order; or the first refusal.
pub open spec fn commits_credits(commits: Seq<CommitAuthors>) -> Result<Seq<Contributor>, Seq<char>>
    decreases commits.len(),
{
    if commits.len() == 0 {
        Ok(Seq::empty())
    } else {
        match commits_credits(commits.drop_last()) {
            Err(message) => Err(message),
            Ok(credits) => match commits.last().authors {
                None => Err("a commit has no authors"@),
                Some(authors) => match authors_credits(authors@) {
                    Err(message) => Err(message),
                    Ok(more) => Ok(credits + more),
                },
            },
        }
    }
}

/// The people credited across `answers`, in order; or the first refusal.
pub open spec fn answers_credits(answers: Seq<Answer>) -> Result<Seq<Contributor>, Seq<char>>
    decreases answers.len(),
{
    if answers.len() == 0 {
        Ok(Seq::empty())
    } else {
        match answers_credits(answers.drop_last()) {
            Err(message) => Err(message),
            Ok(credits) => {
                let answer = answers.last();
                if answer.has_errors {
                    Err("GraphQL answered with errors"@)
                } else {
                    match answer.nodes {
                        None => Err("GraphQL answered with no nodes"@),
                        Some(commits) => match commits_credits(commits@) {
                            Err(message) => Err(message),
                            Ok(more) => Ok(credits + more),
                        },
                    }
                }
            },
        }
    }
}

/// The text of `s` in lowercase, as `str::to_lowercase` gives it.
pub uninterp spec fn lowercase(s: Seq<char>) -> Seq<char>;

/// `text` in lowercase.
///
/// Calls `str::to_lowercase` from std, which maps each character through
/// Unicode's lowercase mapping. What that mapping is, is not stated: the
/// contract only names the result, a function of `text` alone.
#[verifier::external_body]
fn to_lowercase(text: &str) -> (lowered: String)
    ensures
        lowered@ == lowercase(text@),
{
    text.to_lowercase()
}

/// The key a contributor is listed and deduplicated by: how it reads, in
/// lowercase.
pub open spec fn sort_key(contributor: Contributor) -> Seq<char> {
    lowercase(contributor_text(contributor))
}

/// Whether `a` comes before `b` in the order `String` compares in: by
/// character, the shorter first when one is a prefix of the other.
pub open spec fn text_before(a: Seq<char>, b: Seq<char>) -> bool
    decreases a.len(),
{
    if b.len() == 0 {
        false
    } else if a.len() == 0 {
        true
    } else if a[0] != b[0] {
        a[0] < b[0]
    } else {
        text_before(a.drop_first(), b.drop_first())
    }
}

/// Whether `a` comes before `b` in the order `String` compares in.
pub fn is_text_before(a: &str, b: &str) -> (before: bool)
    ensures
        before == text_before(a@, b@),
{
    let a_length = a.unicode_len();
    let b_length = b.unicode_len();
    let mut index: usize = 0;
    assert(a@.skip(0) =~= a@);
    assert(b@.skip(0) =~= b@);
    while index < a_length && index < b_length
        invariant
            a_length == a@.len(),
            b_length == b@.len(),
            index <= a_length,
            index <= b_length,
            text_before(a@, b@) == text_before(a@.skip(index as int), b@.skip(index as int)),
        decreases a_length - index,
    {
        let left = a.get_char(index);
        let right = b.get_char(index);
        assert(a@.skip(index as int)[0] == left);
        assert(b@.skip(index as int)[0] == right);
        if left != right {
            return left < right;
        }
        assert(a@.skip(index as int).drop_first() =~= a@.skip(index + 1));
        assert(b@.skip(index as int).drop_first() =~= b@.skip(index + 1));
        index += 1;
    }
    index == a_length && index < b_length
}

/// The last of `credits` whose key is `key`, if any.
pub open spec fn last_with_key(credits: Seq<Contributor>, key: Seq<char>) -> Option<Contributor>
    decreases credits.len(),
{
    if credits.len() == 0 {
        None
    } else if sort_key(credits.last()) == key {
        Some(credits.last())
    } else {
        last_with_key(credits.drop_last(), key)
    }
}

/// Whether `listed` lists `credits` the way the release body does: once per
/// key, sorted by key, each key standing for the last contributor credited
/// under it, and every credited key present.
pub open spec fn lists_credits(listed: Seq<Contributor>, credits: Seq<Contributor>) -> bool {
    &&& forall|i: int, j: int|
        0 <= i < j < listed.len() ==> text_before(
            sort_key(#[trigger] listed[i]),
            sort_key(#[trigger] listed[j]),
        )
    &&& forall|i: int|
        0 <= i < listed.len() ==> last_with_key(credits, sort_key(#[trigger] listed[i])) == Some(
            listed[i],
        )
    &&& forall|k: int|
        0 <= k < credits.len() ==> exists|i: int|
            0 <= i < listed.len() && sort_key(#[trigger] listed[i]) == sort_key(
                #[trigger] credits[k],
            )
}


/// No text comes before itself.
pub proof fn lemma_text_before_irreflexive(a: Seq<char>)
    ensures
        !text_before(a, a),
    decreases a.len(),
{
    if a.len() > 0 {
        lemma_text_before_irreflexive(a.drop_first());
    }
}

/// Coming before is transitive.
pub proof fn lemma_text_before_transitive(a: Seq<char>, b: Seq<char>, c: Seq<char>)
    requires
        text_before(a, b),
        text_before(b, c),
    ensures
        text_before(a, c),
    decreases a.len(),
{
    if a.len() > 0 && b.len() > 0 && c.len() > 0 && a[0] == b[0] && b[0] == c[0] {
        lemma_text_before_transitive(a.drop_first(), b.drop_first(), c.drop_first());
    }
}

/// Of two different texts, one comes before the other.
pub proof fn lemma_text_before_total(a: Seq<char>, b: Seq<char>)
    requires
        a != b,
    ensures
        text_before(a, b) || text_before(b, a),
    decreases a.len(),
{
    if a.len() > 0 && b.len() > 0 && a[0] == b[0] {
        if a.drop_first() == b.drop_first() {
            assert(a =~= seq![a[0]] + a.drop_first());
            assert(b =~= seq![b[0]] + b.drop_first());
        }
        lemma_text_before_total(a.drop_first(), b.drop_first());
    } else if a.len() == 0 && b.len() == 0 {
        assert(a =~= b);
    }
}

/// The entries of a sorted, deduplicated credit list, each with its key.
pub open spec fn entries_list(entries: Seq<(String, Contributor)>) -> Seq<Contributor> {
    entries.map_values(|entry: (String, Contributor)| entry.1)
}

/// Whether `entries` lists `credits`, each entry carrying its own key.
pub open spec fn entries_list_credits(entries: Seq<(String, Contributor)>, credits: Seq<Contributor>) -> bool {
    &&& forall|i: int| 0 <= i < entries.len() ==> (#[trigger] entries[i]).0@ == sort_key(entries[i].1)
    &&& lists_credits(entries_list(entries), credits)
}

/// Lists `credits` once per key, sorted by key, each key standing for the
/// last contributor credited under it.
pub fn list_credits(credits: Vec<Contributor>) -> (listed: Vec<Contributor>)
    ensures
        lists_credits(listed@, credits@),
{
    let ghost all = credits@;
    let mut entries: Vec<(String, Contributor)> = Vec::new();
    let ghost mut done: Seq<Contributor> = Seq::empty();
    for contributor in it: credits
        invariant
            it.seq() == all,
            done == it.history(),
            entries_list_credits(entries@, done),
    {
        let key = to_lowercase(contributor.to_string().as_str());
        let ghost previous = entries@;
        let mut position: usize = 0;
        while position < entries.len() && is_text_before(entries[position].0.as_str(), key.as_str())
            invariant
                position <= entries@.len(),
                entries@ == previous,
                forall|i: int| 0 <= i < position ==> text_before((#[trigger] entries@[i]).0@, key@),
            decreases entries@.len() - position,
        {
            position += 1;
        }
        proof {
            lemma_credit(previous, done, contributor, key, position as int);
        }
        if position < entries.len() && crate::text::same_text(
            entries[position].0.as_str(),
            key.as_str(),
        ) {
            entries.set(position, (key, contributor));
        } else {
            entries.insert(position, (key, contributor));
        }
        proof {
            done = done.push(contributor);
        }
    }
    assert(done =~= all);
    let ghost sorted = entries@;
    let mut listed: Vec<Contributor> = Vec::new();
    let ghost mut moved: Seq<(String, Contributor)> = Seq::empty();
    for entry in it: entries
        invariant
            it.seq() == sorted,
            moved == it.history(),
            listed@ == entries_list(moved),
    {
        let ghost before = moved;
        listed.push(entry.1);
        proof {
            moved = moved.push(entry);
            assert(entries_list(moved) =~= entries_list(before).push(entry.1));
        }
    }
    assert(moved =~= sorted);
    listed
}


/// Crediting one more contributor keeps the listing right, whether its key
/// is already listed (its entry is replaced) or not (an entry is inserted at
/// the first place whose key does not come before it).
proof fn lemma_credit(
    entries: Seq<(String, Contributor)>,
    credits: Seq<Contributor>,
    contributor: Contributor,
    key: String,
    position: int,
)
    requires
        entries_list_credits(entries, credits),
        key@ == sort_key(contributor),
        0 <= position <= entries.len(),
        forall|i: int| 0 <= i < position ==> text_before((#[trigger] entries[i]).0@, key@),
        position < entries.len() ==> !text_before(entries[position].0@, key@),
    ensures
        position < entries.len() && entries[position].0@ == key@ ==> entries_list_credits(
            entries.update(position, (key, contributor)),
            credits.push(contributor),
        ),
        !(position < entries.len() && entries[position].0@ == key@) ==> entries_list_credits(
            entries.insert(position, (key, contributor)),
            credits.push(contributor),
        ),
{
    let listed = entries_list(entries);
    let pushed = credits.push(contributor);
    assert(pushed.drop_last() =~= credits);
    assert forall|i: int| 0 <= i < entries.len() implies #[trigger] listed[i] == entries[i].1
        && sort_key(listed[i]) == entries[i].0@ by {}
    // Distinct positions hold distinct keys.
    assert forall|i: int, j: int| 0 <= i < entries.len() && 0 <= j < entries.len() && i != j implies
        entries[i].0@ != entries[j].0@ by {
        if i < j {
            assert(text_before(sort_key(listed[i]), sort_key(listed[j])));
            lemma_text_before_irreflexive(entries[i].0@);
        } else {
            assert(text_before(sort_key(listed[j]), sort_key(listed[i])));
            lemma_text_before_irreflexive(entries[j].0@);
        }
    }
    if position < entries.len() && entries[position].0@ == key@ {
        let updated = entries.update(position, (key, contributor));
        let new_listed = entries_list(updated);
        assert(new_listed =~= listed.update(position, contributor));
        assert forall|i: int, j: int| 0 <= i < j < new_listed.len() implies text_before(
            sort_key(#[trigger] new_listed[i]),
            sort_key(#[trigger] new_listed[j]),
        ) by {
            assert(text_before(sort_key(listed[i]), sort_key(listed[j])));
        }
        assert forall|i: int| 0 <= i < new_listed.len() implies last_with_key(
            pushed,
            sort_key(#[trigger] new_listed[i]),
        ) == Some(new_listed[i]) by {
            if i != position {
                assert(entries[i].0@ != entries[position].0@);
            }
        }
        assert forall|k: int| 0 <= k < pushed.len() implies exists|i: int|
            0 <= i < new_listed.len() && sort_key(#[trigger] new_listed[i]) == sort_key(
                #[trigger] pushed[k],
            ) by {
            if k < credits.len() {
                let i = choose|i: int|
                    0 <= i < listed.len() && sort_key(#[trigger] listed[i]) == sort_key(
                        credits[k],
                    );
                assert(sort_key(new_listed[i]) == sort_key(pushed[k]));
            } else {
                assert(sort_key(new_listed[position]) == sort_key(pushed[k]));
            }
        }
    } else {
        let inserted = entries.insert(position, (key, contributor));
        let new_listed = entries_list(inserted);
        assert(new_listed =~= listed.insert(position, contributor));
        // The new key comes after every key before the position and before
        // every key from it on.
        assert forall|i: int| position <= i < entries.len() implies text_before(
            key@,
            (#[trigger] entries[i]).0@,
        ) by {
            lemma_text_before_total(key@, entries[position].0@);
            if i > position {
                assert(text_before(sort_key(listed[position]), sort_key(listed[i])));
                lemma_text_before_transitive(key@, entries[position].0@, entries[i].0@);
            }
        }
        assert forall|i: int| 0 <= i < entries.len() implies entries[i].0@ != key@ by {
            if i < position {
                assert(text_before(entries[i].0@, key@));
            } else {
                assert(text_before(key@, entries[i].0@));
            }
            lemma_text_before_irreflexive(key@);
        }
        assert forall|i: int| 0 <= i < inserted.len() implies (#[trigger] inserted[i]).0@ == sort_key(
            inserted[i].1,
        ) by {
            if i > position {
                assert(inserted[i] == entries[i - 1]);
            } else if i < position {
                assert(inserted[i] == entries[i]);
            }
        }
        assert forall|i: int, j: int| 0 <= i < j < new_listed.len() implies text_before(
            sort_key(#[trigger] new_listed[i]),
            sort_key(#[trigger] new_listed[j]),
        ) by {
            if j < position {
                assert(text_before(sort_key(listed[i]), sort_key(listed[j])));
            } else if j == position {
                assert(text_before(entries[i].0@, key@));
            } else if i < position {
                assert(text_before(entries[i].0@, key@));
                assert(text_before(key@, entries[j - 1].0@));
                lemma_text_before_transitive(entries[i].0@, key@, entries[j - 1].0@);
            } else if i == position {
                assert(text_before(key@, entries[j - 1].0@));
            } else {
                assert(text_before(sort_key(listed[i - 1]), sort_key(listed[j - 1])));
            }
        }
        assert forall|i: int| 0 <= i < new_listed.len() implies last_with_key(
            pushed,
            sort_key(#[trigger] new_listed[i]),
        ) == Some(new_listed[i]) by {
            if i < position {
                assert(entries[i].0@ != key@);
            } else if i > position {
                assert(entries[i - 1].0@ != key@);
            }
        }
        assert forall|k: int| 0 <= k < pushed.len() implies exists|i: int|
            0 <= i < new_listed.len() && sort_key(#[trigger] new_listed[i]) == sort_key(
                #[trigger] pushed[k],
            ) by {
            if k < credits.len() {
                let i = choose|i: int|
                    0 <= i < listed.len() && sort_key(#[trigger] listed[i]) == sort_key(
                        credits[k],
                    );
                if i < position {
                    assert(sort_key(new_listed[i]) == sort_key(pushed[k]));
                } else {
                    assert(sort_key(new_listed[i + 1]) == sort_key(pushed[k]));
                }
            } else {
                assert(sort_key(new_listed[position]) == sort_key(pushed[k]));
            }
        }
    }
}


/// Appends the people among `authors` to `credits`, bots left out, or
/// refuses at the first author with neither a login nor a name.
fn credit_authors(authors: &Vec<Author>, credits: &mut Vec<Contributor>) -> (outcome: Result<
    (),
    &'static str,
>)
    ensures
        match authors_credits(authors@) {
            Err(message) => outcome matches Err(text) && text@ == message,
            Ok(more) => outcome is Ok && final(credits)@ == old(credits)@ + more,
        },
{
    let ghost start = credits@;
    let mut index: usize = 0;
    assert(authors@.take(0) =~= Seq::<Author>::empty());
    assert(credits@ =~= start + Seq::<Contributor>::empty());
    while index < authors.len()
        invariant
            index <= authors@.len(),
            authors_credits(authors@.take(index as int)) matches Ok(so_far) && credits@ == start
                + so_far,
        decreases authors@.len() - index,
    {
        let author = &authors[index];
        assert(authors@.take(index + 1).drop_last() =~= authors@.take(index as int));
        assert(authors@.take(index + 1).last() == authors@[index as int]);
        let ghost so_far = authors_credits(authors@.take(index as int))->Ok_0;
        let contributor = match &author.login {
            Some(login) => Contributor::Account(login.clone()),
            None => match &author.name {
                Some(name) => Contributor::Unlinked(name.clone()),
                None => {
                    proof {
                        lemma_authors_error_stays(authors@, index + 1);
                    }
                    return Err("an author has no name");
                },
            },
        };
        assert(author_contributor(*author) == Some(contributor));
        if !contributor.is_bot() {
            credits.push(contributor);
            assert(credits@ =~= start + so_far.push(contributor));
        }
        index += 1;
    }
    assert(authors@.take(index as int) =~= authors@);
    Ok(())
}

/// Once the authors up to `length` are refused, all of them are, for the
/// same reason.
proof fn lemma_authors_error_stays(authors: Seq<Author>, length: int)
    requires
        0 <= length <= authors.len(),
        authors_credits(authors.take(length)) is Err,
    ensures
        authors_credits(authors) == authors_credits(authors.take(length)),
    decreases authors.len() - length,
{
    if length < authors.len() {
        assert(authors.take(length + 1).drop_last() =~= authors.take(length));
        lemma_authors_error_stays(authors, length + 1);
    } else {
        assert(authors.take(length) =~= authors);
    }
}

/// Once the commits up to `length` are refused, all of them are, for the
/// same reason.
proof fn lemma_commits_error_stays(commits: Seq<CommitAuthors>, length: int)
    requires
        0 <= length <= commits.len(),
        commits_credits(commits.take(length)) is Err,
    ensures
        commits_credits(commits) == commits_credits(commits.take(length)),
    decreases commits.len() - length,
{
    if length < commits.len() {
        assert(commits.take(length + 1).drop_last() =~= commits.take(length));
        lemma_commits_error_stays(commits, length + 1);
    } else {
        assert(commits.take(length) =~= commits);
    }
}

/// Once the answers up to `length` are refused, all of them are, for the
/// same reason.
proof fn lemma_answers_error_stays(answers: Seq<Answer>, length: int)
    requires
        0 <= length <= answers.len(),
        answers_credits(answers.take(length)) is Err,
    ensures
        answers_credits(answers) == answers_credits(answers.take(length)),
    decreases answers.len() - length,
{
    if length < answers.len() {
        assert(answers.take(length + 1).drop_last() =~= answers.take(length));
        lemma_answers_error_stays(answers, length + 1);
    } else {
        assert(answers.take(length) =~= answers);
    }
}

/// Appends the people credited across `commits` to `credits`, or refuses at
/// the first commit with no authors list or author with no name.
fn credit_commits(commits: &Vec<CommitAuthors>, credits: &mut Vec<Contributor>) -> (outcome: Result<
    (),
    &'static str,
>)
    ensures
        match commits_credits(commits@) {
            Err(message) => outcome matches Err(text) && text@ == message,
            Ok(more) => outcome is Ok && final(credits)@ == old(credits)@ + more,
        },
{
    let ghost start = credits@;
    let mut index: usize = 0;
    assert(commits@.take(0) =~= Seq::<CommitAuthors>::empty());
    assert(credits@ =~= start + Seq::<Contributor>::empty());
    while index < commits.len()
        invariant
            index <= commits@.len(),
            commits_credits(commits@.take(index as int)) matches Ok(so_far) && credits@ == start
                + so_far,
        decreases commits@.len() - index,
    {
        let commit = &commits[index];
        assert(commits@.take(index + 1).drop_last() =~= commits@.take(index as int));
        assert(commits@.take(index + 1).last() == commits@[index as int]);
        let ghost so_far = commits_credits(commits@.take(index as int))->Ok_0;
        match &commit.authors {
            None => {
                proof {
                    lemma_commits_error_stays(commits@, index + 1);
                }
                return Err("a commit has no authors");
            },
            Some(authors) => {
                let ghost before = credits@;
                match credit_authors(authors, credits) {
                    Err(text) => {
                        proof {
                            lemma_commits_error_stays(commits@, index + 1);
                        }
                        return Err(text);
                    },
                    Ok(()) => {
                        assert(credits@ =~= start + (so_far + authors_credits(authors@)->Ok_0));
                    },
                }
            },
        }
        index += 1;
    }
    assert(commits@.take(index as int) =~= commits@);
    Ok(())
}

/// Whether `listed` is what the release body credits for `answers`: the
/// contributors listed once per key, or the first answer's refusal.
pub open spec fn credits_listed(answers: Seq<Answer>, listed: Result<Vec<Contributor>, NotesError>) -> bool {
    match answers_credits(answers) {
        Err(message) => listed matches Err(NotesError::Response(text)) && text@ == message,
        Ok(credits) => listed matches Ok(listed) && lists_credits(listed@, credits),
    }
}

/// Every contributor in GitHub's `answers`, once each, sorted by how they
/// read without regard to case, bots left out; or the refusal for the first
/// answer that reported errors or lacks a list it should have.
pub fn contributors(answers: &[Answer]) -> (listed: Result<Vec<Contributor>, NotesError>)
    ensures
        credits_listed(answers@, listed),
{
    let mut credits: Vec<Contributor> = Vec::new();
    let mut index: usize = 0;
    assert(answers@.take(0) =~= Seq::<Answer>::empty());
    while index < answers.len()
        invariant
            index <= answers@.len(),
            answers_credits(answers@.take(index as int)) == Ok::<_, Seq<char>>(credits@),
        decreases answers@.len() - index,
    {
        let answer = &answers[index];
        assert(answers@.take(index + 1).drop_last() =~= answers@.take(index as int));
        assert(answers@.take(index + 1).last() == answers@[index as int]);
        if answer.has_errors {
            proof {
                lemma_answers_error_stays(answers@, index + 1);
            }
            return Err(NotesError::Response("GraphQL answered with errors"));
        }
        match &answer.nodes {
            None => {
                proof {
                    lemma_answers_error_stays(answers@, index + 1);
                }
                return Err(NotesError::Response("GraphQL answered with no nodes"));
            },
            Some(commits) => {
                let ghost before = credits@;
                match credit_commits(commits, &mut credits) {
                    Err(text) => {
                        proof {
                            lemma_answers_error_stays(answers@, index + 1);
                        }
                        return Err(NotesError::Response(text));
                    },
                    Ok(()) => {},
                }
            },
        }
        index += 1;
    }
    assert(answers@.take(index as int) =~= answers@);
    Ok(list_credits(credits))
}


/// Marks the top of the body as the author's. An HTML comment, so it shows
/// while editing and never on the published page.
pub open spec fn prose_marker() -> Seq<char> {
    "<!-- Release prose: write it here, above the line. Everything below the line was generated. -->"@
}

/// Stands in for the prose, visibly, so a release published without any
/// says so on its page.
pub open spec fn prose_placeholder() -> Seq<char> {
    "_Write about this release here._"@
}

/// The versions of an optional tag.
pub open spec fn tag_view(tag: Option<ReleaseTag>) -> Option<(u64, u64, u64)> {
    match tag {
        Some(tag) => Some(tag@),
        None => None,
    }
}

/// What the credits say the range is: since the previous release, or the
/// whole of this one for a first release.
pub open spec fn since_text(previous: Option<(u64, u64, u64)>) -> Seq<char> {
    match previous {
        Some(version) => "since "@ + seq!['v'] + version_text(version),
        None => "in this release"@,
    }
}

/// One `* <contributor>` line per contributor, joined by newlines.
pub open spec fn credit_lines(contributors: Seq<Contributor>) -> Seq<char>
    decreases contributors.len(),
{
    if contributors.len() == 0 {
        Seq::empty()
    } else if contributors.len() == 1 {
        "* "@ + contributor_text(contributors[0])
    } else {
        credit_lines(contributors.drop_last()) + "\n"@ + "* "@ + contributor_text(
            contributors.last(),
        )
    }
}

/// The Contributors section's text after its heading.
pub open spec fn credits_text(previous: Option<(u64, u64, u64)>, contributors: Seq<Contributor>) -> Seq<
    char,
> {
    if contributors.len() == 0 {
        "Nobody has authored a commit "@ + since_text(previous) + ".\n"@
    } else {
        "Everyone who authored or co-authored a commit "@ + since_text(previous) + ":\n\n"@
            + credit_lines(contributors) + "\n"@
    }
}

/// The draft body: the place for prose, then GitHub's notes, then every
/// contributor.
pub open spec fn release_body(
    generated: Seq<char>,
    previous: Option<(u64, u64, u64)>,
    contributors: Seq<Contributor>,
) -> Seq<char> {
    prose_marker() + "\n\n"@ + prose_placeholder() + "\n\n---\n\n"@ + generated
        + "\n\n## Contributors\n\n"@ + credits_text(previous, contributors)
}

/// The draft body: the place for prose, then GitHub's notes, then every
/// contributor.
pub fn compose(generated: &str, previous: Option<ReleaseTag>, contributors: &[Contributor]) -> (body:
    String)
    ensures
        body@ == release_body(generated@, tag_view(previous), contributors@),
{
    let mut since = String::new();
    match previous {
        Some(previous) => {
            since.append("since ");
            since.append(previous.to_string().as_str());
        },
        None => since.append("in this release"),
    }
    assert(since@ =~= since_text(tag_view(previous)));
    let mut credits = String::new();
    if contributors.len() == 0 {
        credits.append("Nobody has authored a commit ");
        credits.append(since.as_str());
        credits.append(".\n");
    } else {
        credits.append("Everyone who authored or co-authored a commit ");
        credits.append(since.as_str());
        credits.append(":\n\n");
        let mut index: usize = 0;
        let ghost start = credits@;
        assert(contributors@.take(0) =~= Seq::<Contributor>::empty());
        assert(credits@ =~= start + credit_lines(contributors@.take(0)));
        while index < contributors.len()
            invariant
                index <= contributors@.len(),
                credits@ == start + credit_lines(contributors@.take(index as int)),
            decreases contributors@.len() - index,
        {
            if index > 0 {
                credits.append("\n");
            }
            credits.append("* ");
            credits.append(contributors[index].to_string().as_str());
            let ghost taken = contributors@.take(index + 1);
            assert(taken.drop_last() =~= contributors@.take(index as int));
            assert(taken.last() == contributors@[index as int]);
            if index == 0 {
                assert(taken.len() == 1);
                assert(taken[0] == contributors@[0]);
                assert(contributors@.take(0) =~= Seq::<Contributor>::empty());
            }
            assert(credits@ =~= start + credit_lines(taken));
            index += 1;
        }
        assert(contributors@.take(index as int) =~= contributors@);
        credits.append("\n");
    }
    let mut body = owned(
        "<!-- Release prose: write it here, above the line. Everything below the line was generated. -->",
    );
    body.append("\n\n");
    body.append("_Write about this release here._");
    body.append("\n\n---\n\n");
    body.append(generated);
    body.append("\n\n## Contributors\n\n");
    body.append(credits.as_str());
    assert(credits@ =~= credits_text(tag_view(previous), contributors@));
    body
}

impl NotesError {
    /// The refusal as a person reads it.
    pub fn to_string(&self) -> (message: String)
        ensures
            match *self {
                NotesError::Tag(error) => message@ == "`"@ + error.spec_input()
                    + "` is not a release tag: "@ + crate::release::version::tag_fault_text(
                    error.spec_reason(),
                ) + "; a release tag is `v` then MAJOR.MINOR.PATCH, such as v0.1.1"@,
                NotesError::Response(reason) => message@ == "GitHub's answer: "@ + reason@,
            },
    {
        match self {
            NotesError::Tag(error) => error.to_string(),
            NotesError::Response(reason) => {
                let mut message = owned("GitHub's answer: ");
                message.append(reason);
                message
            },
        }
    }
}

/// The most commit IDs GitHub's GraphQL `nodes` field takes in one query.
pub const GRAPHQL_NODES_PER_QUERY: usize = 100;

/// Every author of each commit, co-authors included.
pub const COMMIT_AUTHORS_QUERY: &'static str = "query($ids: [ID!]!) { nodes(ids: $ids) { ... on Commit { oid authors(first: 100) { nodes { name user { login } } } } } }";

/// The texts of a list of arguments.
pub open spec fn argument_texts(arguments: Seq<String>) -> Seq<Seq<char>> {
    arguments.map_values(|argument: String| argument@)
}

/// The `gh` arguments that list the tags of every published release of
/// `repository` (`owner/name`), drafts and pre-releases left out.
pub open spec fn releases_request_view(repository: Seq<char>) -> Seq<Seq<char>> {
    seq![
        "api"@,
        "--paginate"@,
        "repos/"@ + repository + "/releases"@,
        "--jq"@,
        ".[] | select((.draft or .prerelease) | not) | .tag_name"@,
    ]
}

/// The `gh` arguments that list the tags of every published release of
/// `repository` (`owner/name`), drafts and pre-releases left out.
pub fn releases_request(repository: &str) -> (arguments: Vec<String>)
    ensures
        argument_texts(arguments@) == releases_request_view(repository@),
{
    let mut path = owned("repos/");
    path.append(repository);
    path.append("/releases");
    let mut arguments: Vec<String> = Vec::new();
    arguments.push(owned("api"));
    arguments.push(owned("--paginate"));
    arguments.push(path);
    arguments.push(owned("--jq"));
    arguments.push(owned(".[] | select((.draft or .prerelease) | not) | .tag_name"));
    assert(argument_texts(arguments@) =~= releases_request_view(repository@));
    arguments
}

/// A tag as it is written: `v` then its version.
pub open spec fn tag_text(tag: (u64, u64, u64)) -> Seq<char> {
    seq!['v'] + version_text(tag)
}

/// The `gh` arguments that ask GitHub to generate the notes for `tag`, a
/// release of `target`, since `previous` when there is one.
pub open spec fn generate_request_view(
    repository: Seq<char>,
    tag: (u64, u64, u64),
    target: Seq<char>,
    previous: Option<(u64, u64, u64)>,
) -> Seq<Seq<char>> {
    seq![
        "api"@,
        "--method"@,
        "POST"@,
        "repos/"@ + repository + "/releases/generate-notes"@,
        "-f"@,
        "tag_name="@ + tag_text(tag),
        "-f"@,
        "target_commitish="@ + target,
        "--jq"@,
        ".body"@,
    ] + match previous {
        Some(previous) => seq!["-f"@, "previous_tag_name="@ + tag_text(previous)],
        None => Seq::empty(),
    }
}

/// `prefix` followed by the text of `tag`.
fn prefixed_tag(prefix: &str, tag: &ReleaseTag) -> (text: String)
    ensures
        text@ == prefix@ + tag_text(tag@),
{
    let mut text = owned(prefix);
    text.append(tag.to_string().as_str());
    text
}

/// The `gh` arguments that ask GitHub to generate the notes for `tag`, a
/// release of `target` in `repository`, since `previous` when there is one.
pub fn generate_request(
    repository: &str,
    tag: ReleaseTag,
    target: &str,
    previous: Option<ReleaseTag>,
) -> (arguments: Vec<String>)
    ensures
        argument_texts(arguments@) == generate_request_view(
            repository@,
            tag@,
            target@,
            tag_view(previous),
        ),
{
    let mut path = owned("repos/");
    path.append(repository);
    path.append("/releases/generate-notes");
    let mut commitish = owned("target_commitish=");
    commitish.append(target);
    let mut arguments: Vec<String> = Vec::new();
    arguments.push(owned("api"));
    arguments.push(owned("--method"));
    arguments.push(owned("POST"));
    arguments.push(path);
    arguments.push(owned("-f"));
    arguments.push(prefixed_tag("tag_name=", &tag));
    arguments.push(owned("-f"));
    arguments.push(commitish);
    arguments.push(owned("--jq"));
    arguments.push(owned(".body"));
    match previous {
        Some(previous) => {
            arguments.push(owned("-f"));
            arguments.push(prefixed_tag("previous_tag_name=", &previous));
        },
        None => {},
    }
    assert(argument_texts(arguments@) =~= generate_request_view(
        repository@,
        tag@,
        target@,
        tag_view(previous),
    ));
    arguments
}

/// The `gh` arguments that list the node IDs of every commit in the
/// release: those since `previous` when there is one, or every commit of
/// `target` otherwise.
pub open spec fn commits_request_view(
    repository: Seq<char>,
    target: Seq<char>,
    previous: Option<(u64, u64, u64)>,
) -> Seq<Seq<char>> {
    match previous {
        None => seq![
            "api"@,
            "--paginate"@,
            "repos/"@ + repository + "/commits?sha="@ + target + "&per_page=100"@,
            "--jq"@,
            ".[].node_id"@,
        ],
        Some(previous) => seq![
            "api"@,
            "--paginate"@,
            "repos/"@ + repository + "/compare/"@ + tag_text(previous) + "..."@ + target
                + "?per_page=100"@,
            "--jq"@,
            ".commits[].node_id"@,
        ],
    }
}

/// The `gh` arguments that list the node IDs of every commit in the
/// release: the range starts at `previous` when there is one, or at the
/// first commit of `target` otherwise.
pub fn commits_request(repository: &str, target: &str, previous: Option<ReleaseTag>) -> (arguments:
    Vec<String>)
    ensures
        argument_texts(arguments@) == commits_request_view(
            repository@,
            target@,
            tag_view(previous),
        ),
{
    let mut range = owned("repos/");
    range.append(repository);
    let jq = match previous {
        None => {
            range.append("/commits?sha=");
            range.append(target);
            range.append("&per_page=100");
            ".[].node_id"
        },
        Some(previous) => {
            range.append("/compare/");
            range.append(previous.to_string().as_str());
            range.append("...");
            range.append(target);
            range.append("?per_page=100");
            ".commits[].node_id"
        },
    };
    let mut arguments: Vec<String> = Vec::new();
    arguments.push(owned("api"));
    arguments.push(owned("--paginate"));
    arguments.push(range);
    arguments.push(owned("--jq"));
    arguments.push(owned(jq));
    assert(argument_texts(arguments@) =~= commits_request_view(
        repository@,
        target@,
        tag_view(previous),
    ));
    arguments
}

/// The `gh` arguments of one GraphQL query for the authors of the commits
/// `ids`.
pub open spec fn authors_request_view(ids: Seq<Seq<char>>) -> Seq<Seq<char>>
    decreases ids.len(),
{
    if ids.len() == 0 {
        seq!["api"@, "graphql"@, "-f"@, "query="@ + COMMIT_AUTHORS_QUERY@]
    } else {
        authors_request_view(ids.drop_last()) + seq!["-f"@, "ids[]="@ + ids.last()]
    }
}

/// The GraphQL queries for the authors of every commit in `ids`, in order,
/// each for the next [`GRAPHQL_NODES_PER_QUERY`] commits or the rest.
pub open spec fn authors_requests_view(ids: Seq<Seq<char>>) -> Seq<Seq<Seq<char>>>
    decreases ids.len(),
{
    if ids.len() == 0 {
        Seq::empty()
    } else if ids.len() <= 100 {
        seq![authors_request_view(ids)]
    } else {
        seq![authors_request_view(ids.take(100))] + authors_requests_view(ids.skip(100))
    }
}

/// The texts of each query's arguments.
pub open spec fn requests_texts(requests: Seq<Vec<String>>) -> Seq<Seq<Seq<char>>> {
    requests.map_values(|request: Vec<String>| argument_texts(request@))
}

/// The `gh` arguments of one GraphQL query for the authors of the commits
/// `ids[start..end]`.
fn authors_request(ids: &[&str], start: usize, end: usize) -> (arguments: Vec<String>)
    requires
        start <= end <= ids@.len(),
    ensures
        argument_texts(arguments@) == authors_request_view(
            ids@.subrange(start as int, end as int).map_values(|id: &str| id@),
        ),
{
    let ghost all = ids@.map_values(|id: &str| id@);
    let mut query = owned("query=");
    query.append(COMMIT_AUTHORS_QUERY);
    let mut arguments: Vec<String> = Vec::new();
    arguments.push(owned("api"));
    arguments.push(owned("graphql"));
    arguments.push(owned("-f"));
    arguments.push(query);
    assert(ids@.subrange(start as int, start as int).map_values(|id: &str| id@) =~= Seq::<
        Seq<char>,
    >::empty());
    assert(argument_texts(arguments@) =~= authors_request_view(Seq::empty()));
    let mut index = start;
    while index < end
        invariant
            start <= index <= end <= ids@.len(),
            argument_texts(arguments@) == authors_request_view(
                ids@.subrange(start as int, index as int).map_values(|id: &str| id@),
            ),
        decreases end - index,
    {
        let ghost before = arguments@;
        let ghost chunk = ids@.subrange(start as int, index + 1).map_values(|id: &str| id@);
        assert(chunk.drop_last() =~= ids@.subrange(start as int, index as int).map_values(
            |id: &str| id@,
        ));
        assert(chunk.last() == ids@[index as int]@);
        let mut id = owned("ids[]=");
        id.append(ids[index]);
        arguments.push(owned("-f"));
        arguments.push(id);
        assert(argument_texts(arguments@) =~= argument_texts(before) + seq![
            "-f"@,
            "ids[]="@ + ids@[index as int]@,
        ]);
        index += 1;
    }
    arguments
}

/// The GraphQL queries for the authors of every commit in `ids`, in order,
/// each naming at most [`GRAPHQL_NODES_PER_QUERY`] commits: GitHub's `nodes`
/// field takes no more in one query.
pub fn authors_requests(ids: &[&str]) -> (requests: Vec<Vec<String>>)
    ensures
        requests_texts(requests@) == authors_requests_view(ids@.map_values(|id: &str| id@)),
{
    let ghost all = ids@.map_values(|id: &str| id@);
    let mut requests: Vec<Vec<String>> = Vec::new();
    let mut start: usize = 0;
    assert(all.skip(0) =~= all);
    while start < ids.len()
        invariant
            start <= ids@.len(),
            all == ids@.map_values(|id: &str| id@),
            requests_texts(requests@) + authors_requests_view(all.skip(start as int))
                == authors_requests_view(all),
        decreases ids@.len() - start,
    {
        let remaining = ids.len() - start;
        let end = if remaining <= GRAPHQL_NODES_PER_QUERY {
            ids.len()
        } else {
            start + GRAPHQL_NODES_PER_QUERY
        };
        let ghost rest = all.skip(start as int);
        assert(rest.take((end - start) as int) =~= ids@.subrange(start as int, end as int).map_values(
            |id: &str| id@,
        ));
        if remaining > GRAPHQL_NODES_PER_QUERY {
            assert(rest.skip(100) =~= all.skip(end as int));
        } else {
            assert(rest.take((end - start) as int) =~= rest);
            assert(all.skip(end as int) =~= Seq::<Seq<char>>::empty());
        }
        let ghost before = requests@;
        requests.push(authors_request(ids, start, end));
        assert(requests_texts(requests@) =~= requests_texts(before) + seq![
            authors_request_view(rest.take((end - start) as int)),
        ]);
        start = end;
    }
    assert(all.skip(start as int) =~= Seq::<Seq<char>>::empty());
    assert(requests_texts(requests@) + Seq::<Seq<Seq<char>>>::empty() =~= requests_texts(
        requests@,
    ));
    requests
}

/// `ids` cut into runs of [`GRAPHQL_NODES_PER_QUERY`], in order, the last
/// holding what is left.
pub open spec fn id_chunks(ids: Seq<Seq<char>>) -> Seq<Seq<Seq<char>>>
    decreases ids.len(),
{
    if ids.len() == 0 {
        Seq::empty()
    } else if ids.len() <= 100 {
        seq![ids]
    } else {
        seq![ids.take(100)] + id_chunks(ids.skip(100))
    }
}

/// Every commit is asked about exactly once, in order, and no query names
/// more than [`GRAPHQL_NODES_PER_QUERY`] commits or none: the queries are
/// the runs of `ids`, one query each.
pub proof fn every_commit_is_asked_about_once_a_hundred_at_most(ids: Seq<Seq<char>>)
    ensures
        id_chunks(ids).flatten() == ids,
        forall|k: int|
            0 <= k < id_chunks(ids).len() ==> 0 < (#[trigger] id_chunks(ids)[k]).len() <= 100,
        authors_requests_view(ids) == id_chunks(ids).map_values(
            |chunk: Seq<Seq<char>>| authors_request_view(chunk),
        ),
    decreases ids.len(),
{
    if ids.len() == 0 {
        assert(id_chunks(ids).map_values(|chunk: Seq<Seq<char>>| authors_request_view(chunk))
            =~= Seq::empty());
    } else if ids.len() <= 100 {
        let chunks = id_chunks(ids);
        assert(chunks.drop_first() =~= Seq::<Seq<Seq<char>>>::empty());
        assert(chunks.flatten() == chunks.first() + chunks.drop_first().flatten());
        assert(ids + Seq::<Seq<char>>::empty() =~= ids);
        assert(chunks.map_values(|chunk: Seq<Seq<char>>| authors_request_view(chunk)) =~= seq![
            authors_request_view(ids),
        ]);
    } else {
        let rest = ids.skip(100);
        every_commit_is_asked_about_once_a_hundred_at_most(rest);
        let chunks = id_chunks(ids);
        assert(chunks.first() == ids.take(100));
        assert(chunks.drop_first() =~= id_chunks(rest));
        assert(chunks.flatten() == chunks.first() + chunks.drop_first().flatten());
        assert(ids.take(100) + rest =~= ids);
        assert forall|k: int| 0 <= k < chunks.len() implies 0 < (#[trigger] chunks[k]).len()
            <= 100 by {
            if k > 0 {
                assert(chunks[k] == id_chunks(rest)[k - 1]);
            }
        }
        assert(chunks.map_values(|chunk: Seq<Seq<char>>| authors_request_view(chunk)) =~= seq![
            authors_request_view(ids.take(100)),
        ] + id_chunks(rest).map_values(|chunk: Seq<Seq<char>>| authors_request_view(chunk)));
    }
}

/// What each of `responses` says, in order, or `None` when one of them is
/// not JSON.
pub open spec fn read_answers(responses: Seq<&str>) -> Option<Seq<AnswerView>>
    decreases responses.len(),
{
    if responses.len() == 0 {
        Some(Seq::empty())
    } else {
        match (read_answers(responses.drop_last()), graphql_answer(responses.last()@)) {
            (Some(answers), Some(answer)) => Some(answers.push(answer)),
            _ => None,
        }
    }
}

/// The answers as plain values.
pub open spec fn answers_view(answers: Seq<Answer>) -> Seq<AnswerView> {
    answers.map_values(|answer: Answer| answer@)
}

/// Once a prefix of the responses holds one that is not JSON, so do they
/// all.
proof fn lemma_unreadable_stays(responses: Seq<&str>, length: int)
    requires
        0 <= length <= responses.len(),
        read_answers(responses.take(length)) is None,
    ensures
        read_answers(responses) is None,
    decreases responses.len() - length,
{
    if length < responses.len() {
        assert(responses.take(length + 1).drop_last() =~= responses.take(length));
        lemma_unreadable_stays(responses, length + 1);
    } else {
        assert(responses.take(length) =~= responses);
    }
}

/// Every contributor in GitHub's GraphQL `responses`, as [`contributors`]
/// lists them from what the responses say; or the refusal for the first
/// response that is not JSON.
pub fn contributors_from_responses(responses: &[&str]) -> (listed: Result<
    Vec<Contributor>,
    NotesError,
>)
    ensures
        match read_answers(responses@) {
            None => listed matches Err(NotesError::Response(text)) && text@
                == "GraphQL printed invalid JSON"@,
            Some(views) => exists|answers: Seq<Answer>|
                answers_view(answers) == views && credits_listed(answers, listed),
        },
{
    let mut answers: Vec<Answer> = Vec::new();
    let mut index: usize = 0;
    assert(responses@.take(0) =~= Seq::<&str>::empty());
    assert(answers_view(answers@) =~= Seq::empty());
    while index < responses.len()
        invariant
            index <= responses@.len(),
            read_answers(responses@.take(index as int)) == Some(answers_view(answers@)),
        decreases responses@.len() - index,
    {
        assert(responses@.take(index + 1).drop_last() =~= responses@.take(index as int));
        assert(responses@.take(index + 1).last() == responses@[index as int]);
        match read_answer(responses[index]) {
            None => {
                proof {
                    lemma_unreadable_stays(responses@, index + 1);
                }
                return Err(NotesError::Response("GraphQL printed invalid JSON"));
            },
            Some(answer) => {
                let ghost before = answers@;
                answers.push(answer);
                assert(answers_view(answers@) =~= answers_view(before).push(answers@.last()@));
            },
        }
        index += 1;
    }
    assert(responses@.take(index as int) =~= responses@);
    let listed = contributors(answers.as_slice());
    assert(read_answers(responses@) == Some(answers_view(answers@)));
    listed
}

/// Reads one more GraphQL response onto `answers`, as the responses come
/// in: what it says is appended, or, when it is not JSON, `answers` is left
/// as it was and the refusal is returned, so that no later query need be
/// made.
pub fn add_response(answers: &mut Vec<Answer>, response: &str) -> (added: Result<(), NotesError>)
    ensures
        match graphql_answer(response@) {
            None => added matches Err(NotesError::Response(text)) && text@
                == "GraphQL printed invalid JSON"@ && answers_view(final(answers)@) == answers_view(
                old(answers)@,
            ),
            Some(answer) => added is Ok && answers_view(final(answers)@) == answers_view(
                old(answers)@,
            ).push(answer),
        },
{
    match read_answer(response) {
        None => Err(NotesError::Response("GraphQL printed invalid JSON")),
        Some(answer) => {
            let ghost before = answers@;
            answers.push(answer);
            assert(answers_view(answers@) =~= answers_view(before).push(answers@.last()@));
            Ok(())
        },
    }
}

/// The lines that are not empty, in order.
pub open spec fn nonempty_lines(lines: Seq<&str>) -> Seq<&str>
    decreases lines.len(),
{
    if lines.len() == 0 {
        Seq::empty()
    } else if lines.last()@.len() == 0 {
        nonempty_lines(lines.drop_last())
    } else {
        nonempty_lines(lines.drop_last()).push(lines.last())
    }
}

/// The commit IDs among the lines `gh` printed: every line that is not
/// empty, in order.
pub fn commit_ids<'a>(lines: &[&'a str]) -> (ids: Vec<&'a str>)
    ensures
        ids@ == nonempty_lines(lines@),
{
    let mut ids: Vec<&'a str> = Vec::new();
    let mut index: usize = 0;
    while index < lines.len()
        invariant
            index <= lines@.len(),
            ids@ == nonempty_lines(lines@.take(index as int)),
        decreases lines@.len() - index,
    {
        assert(lines@.take(index + 1).drop_last() =~= lines@.take(index as int));
        assert(lines@.take(index + 1).last() == lines@[index as int]);
        if lines[index].unicode_len() > 0 {
            ids.push(lines[index]);
        }
        index += 1;
    }
    assert(lines@.take(index as int) =~= lines@);
    ids
}

/// Every credit `authors` give is a person's: no bot is ever credited.
proof fn lemma_authors_credit_no_bot(authors: Seq<Author>)
    ensures
        authors_credits(authors) matches Ok(credits) ==> forall|i: int|
            0 <= i < credits.len() ==> !is_bot_name(contributor_name(#[trigger] credits[i])),
    decreases authors.len(),
{
    if authors.len() > 0 {
        lemma_authors_credit_no_bot(authors.drop_last());
    }
}

/// No bot is credited across `commits`.
proof fn lemma_commits_credit_no_bot(commits: Seq<CommitAuthors>)
    ensures
        commits_credits(commits) matches Ok(credits) ==> forall|i: int|
            0 <= i < credits.len() ==> !is_bot_name(contributor_name(#[trigger] credits[i])),
    decreases commits.len(),
{
    if commits.len() > 0 {
        lemma_commits_credit_no_bot(commits.drop_last());
        if let Some(authors) = commits.last().authors {
            lemma_authors_credit_no_bot(authors@);
            if let Ok(credits) = commits_credits(commits) {
                let before = commits_credits(commits.drop_last())->Ok_0;
                let more = authors_credits(authors@)->Ok_0;
                assert(credits == before + more);
                assert forall|i: int| 0 <= i < credits.len() implies !is_bot_name(
                    contributor_name(#[trigger] credits[i]),
                ) by {
                    if i < before.len() {
                        assert(credits[i] == before[i]);
                    } else {
                        assert(credits[i] == more[i - before.len()]);
                    }
                }
            }
        }
    }
}

/// No bot is credited across `answers`.
proof fn lemma_answers_credit_no_bot(answers: Seq<Answer>)
    ensures
        answers_credits(answers) matches Ok(credits) ==> forall|i: int|
            0 <= i < credits.len() ==> !is_bot_name(contributor_name(#[trigger] credits[i])),
    decreases answers.len(),
{
    if answers.len() > 0 {
        lemma_answers_credit_no_bot(answers.drop_last());
        if let Some(commits) = answers.last().nodes {
            lemma_commits_credit_no_bot(commits@);
            if let Ok(credits) = answers_credits(answers) {
                let before = answers_credits(answers.drop_last())->Ok_0;
                let more = commits_credits(commits@)->Ok_0;
                assert(credits == before + more);
                assert forall|i: int| 0 <= i < credits.len() implies !is_bot_name(
                    contributor_name(#[trigger] credits[i]),
                ) by {
                    if i < before.len() {
                        assert(credits[i] == before[i]);
                    } else {
                        assert(credits[i] == more[i - before.len()]);
                    }
                }
            }
        }
    }
}

/// What the last contributor under a key is, is one of the credits.
proof fn lemma_last_with_key_is_credited(credits: Seq<Contributor>, key: Seq<char>)
    ensures
        last_with_key(credits, key) matches Some(found) ==> exists|i: int|
            0 <= i < credits.len() && #[trigger] credits[i] == found,
    decreases credits.len(),
{
    if credits.len() > 0 {
        lemma_last_with_key_is_credited(credits.drop_last(), key);
        if sort_key(credits.last()) != key {
            if let Some(found) = last_with_key(credits, key) {
                let i = choose|i: int|
                    0 <= i < credits.drop_last().len() && #[trigger] credits.drop_last()[i]
                        == found;
                assert(credits[i] == found);
            }
        } else {
            assert(credits[credits.len() - 1] == credits.last());
        }
    }
}

/// No bot is ever listed among a release's contributors: every listed
/// contributor's name and login lacks the `[bot]` GitHub gives every bot.
pub proof fn no_bot_is_ever_listed(answers: Seq<Answer>, listed: Result<Vec<Contributor>, NotesError>)
    requires
        credits_listed(answers, listed),
    ensures
        listed matches Ok(listed) ==> forall|i: int|
            0 <= i < listed@.len() ==> !is_bot_name(contributor_name(#[trigger] listed@[i])),
{
    lemma_answers_credit_no_bot(answers);
    if let Ok(found) = listed {
        let credits = answers_credits(answers)->Ok_0;
        assert forall|i: int| 0 <= i < found@.len() implies !is_bot_name(
            contributor_name(#[trigger] found@[i]),
        ) by {
            lemma_last_with_key_is_credited(credits, sort_key(found@[i]));
            let j = choose|j: int| 0 <= j < credits.len() && #[trigger] credits[j] == found@[i];
        }
    }
}

} // verus!
