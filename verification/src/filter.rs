//! The domain filter: a blocklist and an allowlist of domain names.
//!
//! The filter keeps its lists and counts them. It does not yet look into
//! queries: `should_block` lets everything pass.

use vstd::prelude::*;
use vstd::utf8::encode_utf8;
use std::collections::HashMap;
use crate::config::FilterConfig;
use crate::digest::{fingerprint, fingerprint_of};

verus! {

/// A raw DNS message.
pub type DnsMessage = Vec<u8>;

/// Why a list could not be loaded.
#[derive(Debug)]
pub enum FilterError {
    FileError(String),
}

impl FilterError {
    /// The text that describes the error.
    pub open spec fn spec_message(&self) -> Seq<char> {
        match self {
            FilterError::FileError(detail) => "文件错误: "@ + detail@,
        }
    }

    /// Describes the error in words.
    pub fn message(&self) -> (text: String)
        ensures
            text@ == self.spec_message(),
    {
        match self {
            FilterError::FileError(detail) => {
                let mut text = "文件错误: ".to_owned();
                text.append(detail.as_str());
                text
            },
        }
    }
}

/// What `stats` reports.
#[derive(Debug, Clone, Copy, PartialEq, Eq, Structural)]
pub struct FilterStats {
    pub blocklist_enabled: bool,
    pub allowlist_enabled: bool,
    pub blocked_domains_count: usize,
    pub allowed_domains_count: usize,
}

/// Whether `c` is white space, as Unicode's `White_Space` property has it.
pub uninterp spec fn is_whitespace_char(c: char) -> bool;

/// Tells whether a character is white space.
///
/// Trusted: `char::is_whitespace` returns whether the character has the
/// `White_Space` property. The contract gives that answer its name.
pub assume_specification[ char::is_whitespace ](c: char) -> (yes: bool)
    ensures
        yes == is_whitespace_char(c),
;

/// `text` in lower case, as Unicode's `Lowercase` mapping has it.
pub uninterp spec fn lowercase_of(text: Seq<char>) -> Seq<char>;

/// Puts a text in lower case.
///
/// Trusted: `str::to_lowercase` returns the lower-case equivalent of the
/// text as a new string, a function of the text alone. The contract gives
/// that result its name.
pub assume_specification[ str::to_lowercase ](text: &str) -> (lower: String)
    ensures
        lower@ == lowercase_of(text@),
;

/// Makes a string of the characters from `from` up to `to`.
///
/// Trusted: collects the characters into a `String` with `std`'s
/// `FromIterator<char>`, which appends them in order.
#[verifier::external_body]
fn text_of(chars: &Vec<char>, from: usize, to: usize) -> (text: String)
    requires
        from <= to <= chars@.len(),
    ensures
        text@ == chars@.subrange(from as int, to as int),
{
    String::from_iter(chars[from..to].iter())
}

/// The position of the first line feed in `text`, or its length where it
/// has none.
pub open spec fn line_end(text: Seq<char>) -> int
    decreases text.len(),
{
    if text.len() == 0 || text[0] == '\n' {
        0
    } else {
        1 + line_end(text.drop_first())
    }
}

/// `line` without the white space it starts with.
pub open spec fn trim_start(line: Seq<char>) -> Seq<char>
    decreases line.len(),
{
    if line.len() > 0 && is_whitespace_char(line[0]) {
        trim_start(line.drop_first())
    } else {
        line
    }
}

/// `line` without the white space it ends with.
pub open spec fn trim_end(line: Seq<char>) -> Seq<char>
    decreases line.len(),
{
    if line.len() > 0 && is_whitespace_char(line.last()) {
        trim_end(line.drop_last())
    } else {
        line
    }
}

/// The domain that a line of a blocklist names: the line without the
/// white space around it, in lower case. An empty line names none, and
/// neither does a comment, a line that starts with `#`.
pub open spec fn blocklist_entry(line: Seq<char>) -> Option<Seq<char>> {
    let name = trim_end(trim_start(line));
    if name.len() == 0 || name[0] == '#' {
        None
    } else {
        Some(lowercase_of(name))
    }
}

/// The domains that a blocklist names, line by line. Lines end at a line
/// feed.
pub open spec fn blocklist_entries(text: Seq<char>) -> Seq<Seq<char>>
    decreases text.len(),
{
    let end = line_end(text);
    let first = match blocklist_entry(text.take(end)) {
        Some(name) => seq![name],
        None => seq![],
    };
    if end >= text.len() {
        first
    } else {
        proof {
            lemma_line_end_in_range(text);
        }
        first + blocklist_entries(text.skip(end + 1))
    }
}

/// A line ends within the text.
pub proof fn lemma_line_end_in_range(text: Seq<char>)
    ensures
        0 <= line_end(text) <= text.len(),
        line_end(text) < text.len() ==> text[line_end(text)] == '\n',
    decreases text.len(),
{
    if text.len() > 0 && text[0] != '\n' {
        lemma_line_end_in_range(text.drop_first());
    }
}

/// The filter as a mathematical value.
pub ghost struct FilterState {
    pub blocklist_enabled: bool,
    pub allowlist_enabled: bool,
    pub blocked: Set<Seq<char>>,
    pub allowed: Set<Seq<char>>,
}

/// The texts of a list of strings.
pub open spec fn texts(names: Seq<String>) -> Seq<Seq<char>> {
    names.map_values(|name: String| name@)
}

/// The number of the chain that a name is filed in.
spec fn chain_of(name: Seq<char>) -> u128 {
    fingerprint(encode_utf8(name))
}

/// Whether a chain keeps the place `at`.
spec fn keeps(chain: Seq<usize>, at: int) -> bool {
    exists|j: int| 0 <= j < chain.len() && #[trigger] chain[j] == at
}

/// A list of names that holds each name once. Beside the names it keeps,
/// for every chain, the places of the names that are filed in it, so that
/// a name is looked for among the few names of its chain.
struct NameList {
    names: Vec<String>,
    places: HashMap<u128, Vec<usize>>,
}

impl NameList {
    /// The names on the list.
    spec fn names(&self) -> Seq<Seq<char>> {
        texts(self.names@)
    }

    /// No name is there twice, every place that is kept exists, and the
    /// place of every name is kept in the chain of the name.
    spec fn wf(&self) -> bool {
        &&& self.names().no_duplicates()
        &&& forall|number: u128, i: int|
            self.places@.contains_key(number) && 0 <= i < self.places@[number]@.len() ==> (
            #[trigger] self.places@[number]@[i]) < self.names@.len()
        &&& forall|at: int|
            0 <= at < self.names@.len() ==> {
                let number = chain_of(#[trigger] self.names()[at]);
                self.places@.contains_key(number) && keeps(self.places@[number]@, at)
            }
    }

    /// An empty list.
    fn new() -> (list: NameList)
        ensures
            list.wf(),
            list.names() == Seq::<Seq<char>>::empty(),
    {
        let list = NameList { names: Vec::new(), places: HashMap::new() };
        assert(list.names() =~= Seq::<Seq<char>>::empty());
        list
    }

    /// How many names the list holds.
    fn len(&self) -> (count: usize)
        requires
            self.wf(),
        ensures
            count == self.names().to_set().len(),
    {
        proof {
            self.names().unique_seq_to_set();
        }
        self.names.len()
    }

    /// Whether `name` is on the list.
    fn contains(&self, name: &String, number: u128) -> (found: bool)
        requires
            self.wf(),
            number == chain_of(name@),
        ensures
            found == self.names().contains(name@),
    {
        match self.places.get(&number) {
            Some(chain) => {
                let mut i: usize = 0;
                while i < chain.len()
                    invariant
                        i <= chain.len(),
                        self.wf(),
                        self.places@.contains_key(number),
                        *chain == self.places@[number],
                        forall|j: int|
                            0 <= j < i ==> self.names()[(#[trigger] chain@[j]) as int] != name@,
                    decreases chain.len() - i,
                {
                    let at = chain[i];
                    assert(at < self.names@.len());
                    if self.names[at] == *name {
                        assert(self.names()[at as int] == name@);
                        return true;
                    }
                    i = i + 1;
                }
                proof {
                    if self.names().contains(name@) {
                        let at = choose|at: int|
                            0 <= at < self.names().len() && self.names()[at] == name@;
                        assert(self.names().len() == self.names@.len());
                        assert(chain_of(self.names()[at]) == number);
                        assert(keeps(chain@, at));
                        let j = choose|j: int| 0 <= j < chain@.len() && #[trigger] chain@[j] == at;
                        assert(self.names()[chain@[j] as int] != name@);
                    }
                }
                false
            },
            None => {
                proof {
                    if self.names().contains(name@) {
                        let at = choose|at: int|
                            0 <= at < self.names().len() && self.names()[at] == name@;
                        assert(self.names().len() == self.names@.len());
                        assert(self.places@.contains_key(chain_of(self.names()[at])));
                    }
                }
                false
            },
        }
    }

    /// Puts `name` on the list unless it is there.
    fn insert(&mut self, name: String)
        requires
            old(self).wf(),
        ensures
            final(self).wf(),
            final(self).names().to_set() == old(self).names().to_set().insert(name@),
    {
        let number = fingerprint_of(name.as_str().as_bytes());
        if self.contains(&name, number) {
            proof {
                assert(self.names().to_set().insert(name@) =~= self.names().to_set());
            }
            return ;
        }
        let ghost before = self.names();
        let ghost places = self.places@;
        let at = self.names.len();
        let mut chain = match self.places.remove(&number) {
            Some(chain) => chain,
            None => Vec::new(),
        };
        let ghost kept = chain@;
        chain.push(at);
        self.names.push(name);
        self.places.insert(number, chain);
        proof {
            assert(self.names() =~= before.push(name@));
            before.lemma_push_to_set_commute(name@);
            assert(self.places@ =~= places.insert(number, chain));
            assert forall|a: int, b: int| 0 <= a < b < self.names().len() implies self.names()[a]
                != self.names()[b] by {
                if b == before.len() {
                    assert(before[a] != name@);
                } else {
                    assert(before[a] != before[b]);
                }
            }
            assert forall|other: u128, i: int|
                self.places@.contains_key(other) && 0 <= i < self.places@[other]@.len() implies (
            #[trigger] self.places@[other]@[i]) < self.names@.len() by {
                if other == number {
                    if i < kept.len() {
                        assert(chain@[i] == kept[i]);
                        assert(places.contains_key(number));
                        assert(places[number]@[i] < before.len());
                    }
                } else {
                    assert(places.contains_key(other));
                    assert(places[other]@[i] < before.len());
                }
            }
            assert forall|place: int| 0 <= place < self.names@.len() implies {
                let filed = chain_of(#[trigger] self.names()[place]);
                self.places@.contains_key(filed) && keeps(self.places@[filed]@, place)
            } by {
                let filed = chain_of(self.names()[place]);
                if place == at {
                    assert(chain@[kept.len() as int] == at);
                } else {
                    assert(self.names()[place] == before[place]);
                    assert(places.contains_key(filed) && keeps(places[filed]@, place));
                    if filed == number {
                        let j = choose|j: int| 0 <= j < kept.len() && #[trigger] kept[j] == place;
                        assert(chain@[j] == place);
                    }
                }
            }
        }
    }
}

/// The domain filter.
pub struct DnsFilter {
    blocklist_enabled: bool,
    allowlist_enabled: bool,
    blocked_domains: NameList,
    allowed_domains: NameList,
}

impl View for DnsFilter {
    type V = FilterState;

    closed spec fn view(&self) -> FilterState {
        FilterState {
            blocklist_enabled: self.blocklist_enabled,
            allowlist_enabled: self.allowlist_enabled,
            blocked: self.blocked_domains.names().to_set(),
            allowed: self.allowed_domains.names().to_set(),
        }
    }
}

impl DnsFilter {
    /// The invariant of the filter: that of its lists.
    pub closed spec fn wf(&self) -> bool {
        self.blocked_domains.wf() && self.allowed_domains.wf()
    }

    /// A filter with an empty blocklist and, where the allowlist is
    /// enabled, the configured domains in lower case on it. Every filter
    /// can be built: the result is never an error.
    pub fn new(config: &FilterConfig) -> (filter: Result<DnsFilter, FilterError>)
        ensures
            filter matches Ok(made) && {
                &&& made.wf()
                &&& made@.blocklist_enabled == config.blocklist_enabled
                &&& made@.allowlist_enabled == config.allowlist_enabled
                &&& made@.blocked == Set::<Seq<char>>::empty()
                &&& made@.allowed == if config.allowlist_enabled {
                    texts(config.allowlist_domains@).map_values(
                        |name: Seq<char>| lowercase_of(name),
                    ).to_set()
                } else {
                    Set::<Seq<char>>::empty()
                }
            },
    {
        let mut allowed_domains = NameList::new();
        if config.allowlist_enabled {
            let ghost wanted = texts(config.allowlist_domains@).map_values(
                |name: Seq<char>| lowercase_of(name),
            );
            let mut i: usize = 0;
            proof {
                assert(wanted.take(0) =~= Seq::<Seq<char>>::empty());
            }
            while i < config.allowlist_domains.len()
                invariant
                    i <= config.allowlist_domains.len(),
                    wanted == texts(config.allowlist_domains@).map_values(
                        |name: Seq<char>| lowercase_of(name),
                    ),
                    allowed_domains.wf(),
                    allowed_domains.names().to_set() == wanted.take(i as int).to_set(),
                decreases config.allowlist_domains.len() - i,
            {
                let domain = config.allowlist_domains[i].as_str().to_lowercase();
                proof {
                    assert(wanted.take(i as int).push(wanted[i as int]) == wanted.take(i + 1));
                    wanted.take(i as int).lemma_push_to_set_commute(wanted[i as int]);
                }
                allowed_domains.insert(domain);
                i = i + 1;
            }
            proof {
                assert(wanted.take(wanted.len() as int) == wanted);
            }
        }
        let made = DnsFilter {
            blocklist_enabled: config.blocklist_enabled,
            allowlist_enabled: config.allowlist_enabled,
            blocked_domains: NameList::new(),
            allowed_domains,
        };
        proof {
            assert(made@.blocked =~= Set::<Seq<char>>::empty());
            if !config.allowlist_enabled {
                assert(made@.allowed =~= Set::<Seq<char>>::empty());
            }
        }
        Ok(made)
    }

    /// Puts the domains that `content` names on the blocklist and returns
    /// how many lines named one.
    pub fn load_blocklist(&mut self, content: &str) -> (count: usize)
        requires
            old(self).wf(),
        ensures
            final(self).wf(),
            final(self)@ == (FilterState {
                blocked: old(self)@.blocked.union(blocklist_entries(content@).to_set()),
                ..old(self)@
            }),
            count == blocklist_entries(content@).len(),
    {
        let entries = parse_blocklist(content);
        let count = entries.len();
        let ghost before = self.blocked_domains.names().to_set();
        let ghost wanted = texts(entries@);
        let mut entries = entries;
        let mut i: usize = 0;
        proof {
            assert(wanted.take(0) =~= Seq::<Seq<char>>::empty());
            assert(before.union(wanted.take(0).to_set()) =~= before);
        }
        while i < entries.len()
            invariant
                i <= entries.len(),
                entries@.len() == count,
                forall|j: int| i <= j < count ==> (#[trigger] entries@[j])@ == wanted[j],
                wanted.len() == count,
                self.blocklist_enabled == old(self).blocklist_enabled,
                self.allowlist_enabled == old(self).allowlist_enabled,
                self.allowed_domains == old(self).allowed_domains,
                self.blocked_domains.wf(),
                self.blocked_domains.names().to_set() == before.union(
                    wanted.take(i as int).to_set(),
                ),
            decreases entries.len() - i,
        {
            let mut name = String::new();
            std::mem::swap(&mut name, &mut entries[i]);
            proof {
                assert(wanted.take(i as int).push(wanted[i as int]) == wanted.take(i + 1));
                wanted.take(i as int).lemma_push_to_set_commute(wanted[i as int]);
                assert(before.union(wanted.take(i as int).to_set()).insert(wanted[i as int])
                    =~= before.union(wanted.take(i as int).to_set().insert(wanted[i as int])));
            }
            self.blocked_domains.insert(name);
            i = i + 1;
        }
        proof {
            assert(wanted.take(count as int) == wanted);
        }
        count
    }

    /// Whether `query` is to be blocked. The filter does not look into
    /// queries yet: nothing is.
    pub fn should_block(&self, query: &DnsMessage) -> (blocked: bool)
        ensures
            !blocked,
    {
        false
    }

    /// Counts the names on each list that is enabled.
    pub fn stats(&self) -> (stats: FilterStats)
        requires
            self.wf(),
        ensures
            stats.blocklist_enabled == self@.blocklist_enabled,
            stats.allowlist_enabled == self@.allowlist_enabled,
            stats.blocked_domains_count == if self@.blocklist_enabled {
                self@.blocked.len()
            } else {
                0
            },
            stats.allowed_domains_count == if self@.allowlist_enabled {
                self@.allowed.len()
            } else {
                0
            },
    {
        let blocked_domains_count = if self.blocklist_enabled {
            self.blocked_domains.len()
        } else {
            0
        };
        let allowed_domains_count = if self.allowlist_enabled {
            self.allowed_domains.len()
        } else {
            0
        };
        FilterStats {
            blocklist_enabled: self.blocklist_enabled,
            allowlist_enabled: self.allowlist_enabled,
            blocked_domains_count,
            allowed_domains_count,
        }
    }
}

/// Reads the domains that a blocklist names, line by line.
pub fn parse_blocklist(content: &str) -> (entries: Vec<String>)
    ensures
        texts(entries@) == blocklist_entries(content@),
{
    let chars = chars_of(content);
    let mut entries: Vec<String> = Vec::new();
    let mut start: usize = 0;
    proof {
        assert(chars@.skip(0) == chars@);
        assert(texts(entries@) =~= Seq::<Seq<char>>::empty());
    }
    loop
        invariant
            start <= chars@.len(),
            chars@ == content@,
            texts(entries@) + blocklist_entries(chars@.skip(start as int)) == blocklist_entries(
                chars@,
            ),
        decreases chars@.len() - start,
    {
        let ghost rest = chars@.skip(start as int);
        let end = find_line_end(&chars, start);
        proof {
            assert(rest.take(end - start) == chars@.subrange(start as int, end as int));
        }
        let ghost listed = texts(entries@);
        match read_entry(&chars, start, end) {
            Some(name) => {
                entries.push(name);
                proof {
                    assert(texts(entries@) =~= listed + seq![name@]);
                }
            },
            None => {
                proof {
                    assert(listed + Seq::<Seq<char>>::empty() =~= listed);
                }
            },
        }
        if end >= chars.len() {
            proof {
                assert(listed + blocklist_entries(rest) == texts(entries@)) by {
                    assert(listed + blocklist_entries(rest) =~= texts(entries@));
                }
            }
            return entries;
        }
        proof {
            assert(rest.skip(end - start + 1) == chars@.skip(end + 1));
            let first = match blocklist_entry(rest.take(end - start)) {
                Some(name) => seq![name],
                None => seq![],
            };
            assert(blocklist_entries(rest) == first + blocklist_entries(chars@.skip(end + 1)));
            assert(texts(entries@) == listed + first);
            assert((listed + first) + blocklist_entries(chars@.skip(end + 1)) =~= listed + (first
                + blocklist_entries(chars@.skip(end + 1))));
        }
        start = end + 1;
    }
}

/// The characters of a text.
fn chars_of(text: &str) -> (chars: Vec<char>)
    ensures
        chars@ == text@,
{
    let mut chars: Vec<char> = Vec::new();
    for c in it: text.chars()
        invariant
            it.seq() == text@,
            chars@ == text@.take(it.index()),
    {
        proof {
            assert(text@.take(it.index()).push(c) == text@.take(it.index() + 1));
        }
        chars.push(c);
    }
    proof {
        assert(text@.take(text@.len() as int) == text@);
    }
    chars
}

/// Finds where the line that starts at `start` ends.
fn find_line_end(chars: &Vec<char>, start: usize) -> (end: usize)
    requires
        start <= chars@.len(),
    ensures
        start <= end <= chars@.len(),
        end - start == line_end(chars@.skip(start as int)),
{
    let mut end = start;
    while end < chars.len() && chars[end] != '\n'
        invariant
            start <= end <= chars@.len(),
            line_end(chars@.skip(start as int)) == (end - start) + line_end(
                chars@.skip(end as int),
            ),
        decreases chars@.len() - end,
    {
        proof {
            assert(chars@.skip(end as int).drop_first() == chars@.skip(end + 1));
        }
        end = end + 1;
    }
    end
}

/// Reads the domain that the line from `start` to `end` names.
fn read_entry(chars: &Vec<char>, start: usize, end: usize) -> (entry: Option<String>)
    requires
        start <= end <= chars@.len(),
    ensures
        match entry {
            Some(name) => blocklist_entry(chars@.subrange(start as int, end as int)) == Some(
                name@,
            ),
            None => blocklist_entry(chars@.subrange(start as int, end as int)) is None,
        },
{
    let ghost line = chars@.subrange(start as int, end as int);
    let mut from = start;
    while from < end && chars[from].is_whitespace()
        invariant
            start <= from <= end <= chars@.len(),
            trim_start(line) == trim_start(chars@.subrange(from as int, end as int)),
        decreases end - from,
    {
        proof {
            assert(chars@.subrange(from as int, end as int).drop_first() == chars@.subrange(
                from + 1,
                end as int,
            ));
        }
        from = from + 1;
    }
    let ghost left = chars@.subrange(from as int, end as int);
    assert(trim_start(line) == left);
    let mut to = end;
    while from < to && chars[to - 1].is_whitespace()
        invariant
            from <= to <= end <= chars@.len(),
            trim_end(left) == trim_end(chars@.subrange(from as int, to as int)),
        decreases to - from,
    {
        proof {
            assert(chars@.subrange(from as int, to as int).drop_last() == chars@.subrange(
                from as int,
                to - 1,
            ));
        }
        to = to - 1;
    }
    assert(trim_end(left) == chars@.subrange(from as int, to as int));
    if from == to || chars[from] == '#' {
        None
    } else {
        Some(text_of(chars, from, to).as_str().to_lowercase())
    }
}

} // verus!
