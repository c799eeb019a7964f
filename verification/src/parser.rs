//! The interface of the language parsers, and the registry that picks one by extension.

use vstd::prelude::*;
use crate::ir::CodeGraph;
use crate::path_utils::{forward_slash, normalize_path};
use crate::text::{chars_of, push_str, same_text, string_from_chars, to_owned_string};

verus! {

/// An error that occurred during parsing.
#[derive(Debug, Clone, PartialEq)]
pub struct ParseError {
    /// A descriptive error message.
    pub message: String,
    /// The path of the file being parsed.
    pub file_path: String,
    /// The line number where the error occurred, if applicable.
    pub line: Option<u32>,
}

/// Interface that every language adapter implements to parse code into a graph.
pub trait LanguageParser {
    /// The extensions the parser claims.
    spec fn claimed_extensions(&self) -> Seq<Seq<char>>;

    /// Whether `r` is what the parser answers for the source of the file at the path.
    spec fn parses_to(&self, source: Seq<char>, file_path: Seq<char>, r: Result<CodeGraph, ParseError>) -> bool;

    /// Human-readable name, e.g. "python", "typescript".
    fn language_name(&self) -> &str;

    /// File extensions this parser handles, e.g. ["py"].
    fn supported_extensions(&self) -> (r: &[&str])
        ensures
            r@.map_values(|e: &str| e@) == self.claimed_extensions();

    /// Parses source code into a graph.
    fn parse(&self, source: &str, file_path: &str) -> (r: Result<CodeGraph, ParseError>)
        ensures
            self.parses_to(source@, file_path@, r);
}

/// A registry of language parsers, dispatching by file extension.
pub struct LanguageRegistry {
    parsers: Vec<Registered>,
}

/// A registered parser, with the extensions it claimed when it was registered.
struct Registered {
    parser: Box<dyn LanguageParser>,
    extensions: Vec<String>,
}

impl Default for LanguageRegistry {
    fn default() -> (r: Self)
        ensures
            r.extension_lists().len() == 0,
    {
        LanguageRegistry::new()
    }
}

/// The position of the last `c` in `s`, or -1.
pub open spec fn last_index(s: Seq<char>, c: char) -> int
    decreases s.len(),
{
    if s.len() == 0 {
        -1
    } else if s.last() == c {
        s.len() - 1
    } else {
        last_index(s.drop_last(), c)
    }
}

/// The last component of a path with '/' separators, as `std::path::Path` reads it:
/// trailing separators and "." components are skipped, and a final ".." has no name.
pub open spec fn file_name(p: Seq<char>) -> Option<Seq<char>>
    decreases p.len(),
{
    if p.len() == 0 {
        None
    } else if p.last() == '/' {
        file_name(p.drop_last())
    } else {
        let k = last_index(p, '/');
        let comp = p.skip(k + 1);
        if comp == seq!['.'] {
            proof {
                lemma_last_index(p, '/');
            }
            file_name(p.take(k + 1))
        } else if comp == seq!['.', '.'] {
            None
        } else {
            Some(comp)
        }
    }
}

/// The extension of a path, as `std::path::Path::extension` reads it: what follows the
/// last '.' of the file name, unless the name has no '.' or only a leading one.
pub open spec fn extension(p: Seq<char>) -> Option<Seq<char>> {
    match file_name(p) {
        None => None,
        Some(name) => {
            let k = last_index(name, '.');
            if k <= 0 { None } else { Some(name.skip(k + 1)) }
        },
    }
}

pub proof fn lemma_last_index(s: Seq<char>, c: char)
    ensures
        -1 <= last_index(s, c) < s.len(),
        last_index(s, c) >= 0 ==> s[last_index(s, c)] == c,
        forall|j: int| last_index(s, c) < j < s.len() ==> s[j] != c,
    decreases s.len(),
{
    if s.len() > 0 && s.last() != c {
        lemma_last_index(s.drop_last(), c);
        assert forall|j: int| last_index(s, c) < j < s.len() implies s[j] != c by {
            if j < s.len() - 1 {
                assert(s.drop_last()[j] == s[j]);
            }
        }
    }
}

fn last_index_exec(s: &Vec<char>, end: usize, c: char) -> (r: Option<usize>)
    requires
        end <= s@.len(),
    ensures
        r matches Some(k) ==> k < end && last_index(s@.take(end as int), c) == k,
        r is None ==> last_index(s@.take(end as int), c) == -1,
{
    let mut i: usize = end;
    while i > 0
        invariant
            i <= end <= s@.len(),
            last_index(s@.take(end as int), c) == last_index(s@.take(i as int), c),
        decreases i,
    {
        assert(s@.take(i as int).drop_last() =~= s@.take(i - 1));
        if s[i - 1] == c {
            return Some(i - 1);
        }
        i = i - 1;
    }
    None
}

/// The last component of the path, as `std::path::Path::file_name` reads it.
pub fn file_name_exec(p: &Vec<char>) -> (r: Option<Vec<char>>)
    ensures
        match r {
            Some(v) => file_name(p@) == Some(v@),
            None => file_name(p@) is None,
        },
{
    let mut end: usize = p.len();
    assert(p@.take(end as int) =~= p@);
    loop
        invariant
            end <= p@.len(),
            file_name(p@.take(end as int)) == file_name(p@),
        decreases end,
    {
        let ghost q = p@.take(end as int);
        if end == 0 {
            return None;
        }
        if p[end - 1] == '/' {
            assert(q.drop_last() =~= p@.take(end - 1));
            end = end - 1;
        } else {
            let start = match last_index_exec(p, end, '/') {
                Some(k) => k + 1,
                None => 0,
            };
            let ghost k = last_index(q, '/');
            proof {
                lemma_last_index(q, '/');
            }
            assert(start == k + 1);
            let clen = end - start;
            assert(q.skip(k + 1).len() == clen);
            if clen == 1 && p[start] == '.' {
                assert(q.skip(k + 1) =~= seq!['.']);
                assert(q.take(k + 1) =~= p@.take(start as int));
                end = start;
            } else if clen == 2 && p[start] == '.' && p[start + 1] == '.' {
                assert(q.skip(k + 1) =~= seq!['.', '.']);
                return None;
            } else {
                assert(q.skip(k + 1) != seq!['.']) by {
                    if clen == 1 { assert(q.skip(k + 1)[0] == p@[start as int]); }
                }
                assert(q.skip(k + 1) != seq!['.', '.']) by {
                    if clen == 2 {
                        assert(q.skip(k + 1)[0] == p@[start as int]);
                        assert(q.skip(k + 1)[1] == p@[start + 1]);
                    }
                }
                let mut r: Vec<char> = Vec::new();
                let mut i: usize = start;
                while i < end
                    invariant
                        start <= i <= end <= p@.len(),
                        r@ == p@.subrange(start as int, i as int),
                    decreases end - i,
                {
                    r.push(p[i]);
                    assert(p@.subrange(start as int, i + 1) =~= p@.subrange(start as int, i as int).push(p@[i as int]));
                    i = i + 1;
                }
                assert(r@ =~= q.skip(k + 1));
                return Some(r);
            }
        }
    }
}

/// The extension of the path, or nothing where it has none.
pub fn path_extension(p: &Vec<char>) -> (r: Vec<char>)
    ensures
        r@ == match extension(p@) { Some(e) => e, None => Seq::empty() },
{
    let mut end: usize = p.len();
    assert(p@.take(end as int) =~= p@);
    loop
        invariant
            end <= p@.len(),
            file_name(p@.take(end as int)) == file_name(p@),
        decreases end,
    {
        let ghost q = p@.take(end as int);
        if end == 0 {
            return Vec::new();
        }
        if p[end - 1] == '/' {
            assert(q.drop_last() =~= p@.take(end - 1));
            end = end - 1;
        } else {
            let start = match last_index_exec(p, end, '/') {
                Some(k) => k + 1,
                None => 0,
            };
            let ghost k = last_index(q, '/');
            proof {
                lemma_last_index(q, '/');
            }
            assert(start == k + 1);
            let clen = end - start;
            assert(q.skip(k + 1).len() == clen);
            if clen == 1 && p[start] == '.' {
                assert(q.skip(k + 1) =~= seq!['.']);
                assert(q.take(k + 1) =~= p@.take(start as int));
                end = start;
            } else if clen == 2 && p[start] == '.' && p[start + 1] == '.' {
                assert(q.skip(k + 1) =~= seq!['.', '.']);
                return Vec::new();
            } else {
                assert(q.skip(k + 1) != seq!['.']) by {
                    if clen == 1 { assert(q.skip(k + 1)[0] == p@[start as int]); }
                }
                assert(q.skip(k + 1) != seq!['.', '.']) by {
                    if clen == 2 {
                        assert(q.skip(k + 1)[0] == p@[start as int]);
                        assert(q.skip(k + 1)[1] == p@[start + 1]);
                    }
                }
                let ghost name = q.skip(k + 1);
                assert(file_name(p@) == Some(name));
                let mut r: Vec<char> = Vec::new();
                let dot = last_index_exec(p, end, '.');
                match dot {
                    Some(d) => {
                        if d > start {
                            let mut i: usize = d + 1;
                            while i < end
                                invariant
                                    d + 1 <= i <= end <= p@.len(),
                                    r@ == p@.subrange(d + 1, i as int),
                                decreases end - i,
                            {
                                r.push(p[i]);
                                assert(p@.subrange(d + 1, i + 1) =~= p@.subrange(d + 1, i as int).push(p@[i as int]));
                                i = i + 1;
                            }
                            proof {
                                lemma_last_index(name, '.');
                                lemma_last_index(q, '.');
                                let kd = last_index(name, '.');
                                assert(q[d as int] == '.');
                                assert(name[d - start] == q[d as int]);
                                assert(kd == d - start) by {
                                    if kd < d - start {
                                        assert(name[d - start] != '.');
                                    }
                                    if kd > d - start {
                                        assert(name[kd] == q[start + kd]);
                                    }
                                }
                                assert(name.skip(kd + 1) =~= p@.subrange(d + 1, end as int));
                            }
                            return r;
                        } else {
                            proof {
                                lemma_last_index(name, '.');
                                lemma_last_index(q, '.');
                                let kd = last_index(name, '.');
                                if kd > 0 {
                                    assert(name[kd] == q[start + kd]);
                                }
                            }
                            return r;
                        }
                    },
                    None => {
                        proof {
                            lemma_last_index(name, '.');
                            lemma_last_index(q, '.');
                            let kd = last_index(name, '.');
                            if kd >= 0 {
                                assert(name[kd] == q[start + kd]);
                            }
                        }
                        return r;
                    },
                }
            }
        }
    }
}

/// The index of the last list that holds the extension.
pub open spec fn last_holding(lists: Seq<Seq<Seq<char>>>, ext: Seq<char>) -> Option<int>
    decreases lists.len(),
{
    if lists.len() == 0 {
        None
    } else if lists.last().contains(ext) {
        Some(lists.len() - 1)
    } else {
        last_holding(lists.drop_last(), ext)
    }
}

/// Registering a parser gives it every extension it claims, and leaves every other
/// extension with the parser that had it: the last registration of an extension wins.
pub proof fn lemma_register_takes(lists: Seq<Seq<Seq<char>>>, claimed: Seq<Seq<char>>, e: Seq<char>)
    ensures
        claimed.contains(e) ==> last_holding(lists.push(claimed), e) == Some(lists.len() as int),
        !claimed.contains(e) ==> last_holding(lists.push(claimed), e) == last_holding(lists, e),
{
    assert(lists.push(claimed).drop_last() =~= lists);
}

/// Registering several parsers in turn gives each extension to the last of them that
/// claims it, and leaves every extension that none of them claims with the parser that
/// had it.
pub proof fn lemma_register_many_takes(lists: Seq<Seq<Seq<char>>>, added: Seq<Seq<Seq<char>>>, e: Seq<char>)
    ensures
        last_holding(added, e) matches Some(j) ==> last_holding(lists + added, e) == Some(lists.len() + j),
        last_holding(added, e) is None ==> last_holding(lists + added, e) == last_holding(lists, e),
    decreases added.len(),
{
    if added.len() > 0 {
        assert((lists + added).drop_last() =~= lists + added.drop_last());
        assert((lists + added).last() == added.last());
        lemma_register_many_takes(lists, added.drop_last(), e);
    } else {
        assert(lists + added =~= lists);
    }
}

/// Registering a parser hands each extension it claims to the parser at the new last
/// position, and leaves every other extension with the parser that had it, at the same
/// position: this is what `register` does (see its contract), stated over the registries
/// before and after.
pub proof fn lemma_register_dispatch(before: LanguageRegistry, after: LanguageRegistry, claimed: Seq<Seq<char>>,
    e: Seq<char>)
    requires
        after.extension_lists() == before.extension_lists().push(claimed),
        forall|j: int| 0 <= j < before.extension_lists().len() ==> #[trigger] after.parser_at(j) == before.parser_at(j),
    ensures
        claimed.contains(e) ==> last_holding(after.extension_lists(), e) == Some(before.extension_lists().len() as int),
        !claimed.contains(e) ==> last_holding(after.extension_lists(), e) == last_holding(before.extension_lists(), e),
        !claimed.contains(e) ==> (last_holding(before.extension_lists(), e) matches Some(i)
            ==> after.parser_at(i) == before.parser_at(i)),
{
    lemma_register_takes(before.extension_lists(), claimed, e);
    lemma_last_holding(before.extension_lists(), e);
}

proof fn lemma_last_holding(lists: Seq<Seq<Seq<char>>>, ext: Seq<char>)
    ensures
        last_holding(lists, ext) matches Some(i) ==> 0 <= i < lists.len() && lists[i].contains(ext)
            && forall|j: int| i < j < lists.len() ==> !lists[j].contains(ext),
        last_holding(lists, ext) is None ==> forall|j: int| 0 <= j < lists.len() ==> !lists[j].contains(ext),
    decreases lists.len(),
{
    if lists.len() > 0 && !lists.last().contains(ext) {
        lemma_last_holding(lists.drop_last(), ext);
        assert forall|j: int| 0 <= j < lists.len() - 1 implies lists[j] == lists.drop_last()[j] by {}
    }
}

/// The texts of the references, in order.
pub(crate) fn owned_strings(refs: &[&str]) -> (r: Vec<String>)
    ensures
        r.deep_view() == refs@.map_values(|e: &str| e@),
{
    let mut r: Vec<String> = Vec::new();
    let mut i: usize = 0;
    while i < refs.len()
        invariant
            i <= refs@.len(),
            r.deep_view() == refs@.map_values(|e: &str| e@).take(i as int),
        decreases refs@.len() - i,
    {
        let ghost r0 = r.deep_view();
        r.push(to_owned_string(refs[i]));
        assert(r.deep_view() =~= r0.push(refs@[i as int]@));
        i = i + 1;
        assert(r.deep_view() =~= refs@.map_values(|e: &str| e@).take(i as int));
    }
    assert(refs@.map_values(|e: &str| e@).take(i as int) =~= refs@.map_values(|e: &str| e@));
    r
}

fn add_registered(parsers: &mut Vec<Registered>, reg: Registered)
    ensures
        final(parsers)@ == old(parsers)@.push(reg),
        final(parsers)@.len() == old(parsers)@.len() + 1,
        forall|j: int| 0 <= j < old(parsers)@.len() ==> final(parsers)@[j] == old(parsers)@[j],
        final(parsers)@[old(parsers)@.len() as int] == reg,
{
    parsers.push(reg);
}

impl LanguageRegistry {
    /// The extension lists of the registered parsers, in order of registration.
    pub closed spec fn extension_lists(&self) -> Seq<Seq<Seq<char>>> {
        self.parsers@.map_values(|r: Registered| r.extensions.deep_view())
    }

    /// The parser registered at the position.
    pub closed spec fn parser_at(&self, i: int) -> &dyn LanguageParser {
        &*self.parsers@[i].parser
    }

    /// Creates an empty registry.
    pub fn new() -> (r: Self)
        ensures
            r.extension_lists().len() == 0,
    {
        LanguageRegistry { parsers: Vec::new() }
    }

    /// Registers a parser, with the extensions it supports. Where several parsers claim
    /// an extension, the last one registered takes it.
    pub fn register(&mut self, parser: Box<dyn LanguageParser>)
        ensures
            final(self).extension_lists() == old(self).extension_lists().push(parser.claimed_extensions()),
            forall|j: int| 0 <= j < old(self).extension_lists().len() ==>
                #[trigger] final(self).parser_at(j) == old(self).parser_at(j),
    {
        let exts = parser.supported_extensions();
        let list = owned_strings(exts);
        self.register_claiming(parser, list);
    }

    /// Registers a parser with the extensions it claims.
    pub(crate) fn register_claiming(&mut self, parser: Box<dyn LanguageParser>, extensions: Vec<String>)
        ensures
            final(self).extension_lists() == old(self).extension_lists().push(extensions.deep_view()),
            forall|j: int| 0 <= j < old(self).extension_lists().len() ==>
                #[trigger] final(self).parser_at(j) == old(self).parser_at(j),
    {
        let ghost before = self.extension_lists();
        let ghost old_parsers = self.parsers@;
        add_registered(&mut self.parsers, Registered { parser, extensions });
        assert forall|j: int| 0 <= j < before.len() implies self.extension_lists()[j] == before[j] by {
            assert(self.parsers@[j] == old_parsers[j]);
        }
        assert(self.extension_lists() =~= before.push(extensions.deep_view()));
    }

    /// The position of the parser that takes the extension: the last one registered that
    /// supports it.
    fn find_index(&self, extension: &str) -> (r: Option<usize>)
        ensures
            r matches Some(i) ==> i < self.extension_lists().len(),
            match r { Some(i) => last_holding(self.extension_lists(), extension@) == Some(i as int),
                      None => last_holding(self.extension_lists(), extension@) is None },
    {
        let ext = to_owned_string(extension);
        let ghost lists = self.extension_lists();
        let mut i: usize = self.parsers.len();
        assert(lists.take(i as int) =~= lists);
        while i > 0
            invariant
                ext@ == extension@,
                i <= self.parsers@.len(),
                lists == self.extension_lists(),
                lists.len() == self.parsers@.len(),
                last_holding(lists, extension@) == last_holding(lists.take(i as int), extension@),
            decreases i,
        {
            let list = &self.parsers[i - 1].extensions;
            assert(list.deep_view() == lists[i - 1]);
            let mut k: usize = 0;
            let mut found = false;
            while k < list.len()
                invariant
                    k <= list@.len(),
                    !found ==> forall|k2: int| 0 <= k2 < k ==> list.deep_view()[k2] != extension@,
                    found ==> list.deep_view().contains(extension@),
                    ext@ == extension@,
                decreases list@.len() - k,
            {
                if same_text(&list[k], &ext) {
                    assert(list.deep_view()[k as int] == extension@);
                    found = true;
                }
                k = k + 1;
            }
            assert(lists.take(i as int).last() == lists[i - 1]);
            if found {
                return Some(i - 1);
            }
            assert(!lists[i - 1].contains(extension@));
            assert(lists.take(i as int).drop_last() =~= lists.take(i - 1));
            i = i - 1;
        }
        None
    }

    /// The parser that takes the extension: the last one registered that supports it.
    pub fn find_parser(&self, extension: &str) -> (r: Option<&dyn LanguageParser>)
        ensures
            r is Some <==> last_holding(self.extension_lists(), extension@) is Some,
            r matches Some(p) ==> p == self.parser_at(last_holding(self.extension_lists(), extension@)->0),
    {
        match self.find_index(extension) {
            Some(i) => {
                let reg = &self.parsers[i];
                let p: &dyn LanguageParser = &*reg.parser;
                Some(p)
            },
            None => None,
        }
    }

    /// The parser that takes the file, found by the extension of its path once the path's
    /// backslashes are forward slashes, together with that path.
    pub fn parser_for_file(&self, file_path: &str) -> (r: Option<(&dyn LanguageParser, String)>)
        ensures
            r is Some <==> last_holding(self.extension_lists(), path_ext(slashed(file_path@))) is Some,
            r matches Some(found) ==> found.1@ == slashed(file_path@)
                && found.0 == self.parser_at(last_holding(self.extension_lists(), path_ext(slashed(file_path@)))->0),
    {
        let normalized = normalize_path(file_path);
        let np = chars_of(normalized.as_str());
        let ext_chars = path_extension(&np);
        let ext = string_from_chars(ext_chars.as_slice());
        match self.find_index(ext.as_str()) {
            Some(i) => {
                let reg = &self.parsers[i];
                let p: &dyn LanguageParser = &*reg.parser;
                Some((p, normalized))
            },
            None => None,
        }
    }

    /// Parses a file with the parser that takes its extension, after turning its path's
    /// backslashes into forward slashes (see `parser_for_file`): the answer is that parser's.
    /// Without such a parser, the error names the extension and the normalized path.
    pub fn parse_file(&self, file_path: &str, source: &str) -> (r: Result<CodeGraph, ParseError>)
        ensures
            last_holding(self.extension_lists(), path_ext(slashed(file_path@))) is None ==>
                (r matches Err(e) && e.message@ == "No parser for extension: "@ + path_ext(slashed(file_path@))
                    && e.file_path@ == slashed(file_path@) && e.line is None),
            last_holding(self.extension_lists(), path_ext(slashed(file_path@))) matches Some(i) ==>
                self.parser_at(i).parses_to(source@, slashed(file_path@), r),
    {
        match self.parser_for_file(file_path) {
            Some((parser, normalized)) => parser.parse(source, normalized.as_str()),
            None => {
                let normalized = normalize_path(file_path);
                let np = chars_of(normalized.as_str());
                let ext_chars = path_extension(&np);
                let ext = string_from_chars(ext_chars.as_slice());
                let mut message = to_owned_string("No parser for extension: ");
                push_str(&mut message, ext.as_str());
                Err(ParseError { message, file_path: normalized, line: None })
            },
        }
    }
}

/// The path with its backslashes turned into forward slashes.
pub open spec fn slashed(p: Seq<char>) -> Seq<char> {
    p.map_values(|c: char| forward_slash(c))
}

/// The extension of the path, or nothing where it has none.
pub open spec fn path_ext(p: Seq<char>) -> Seq<char> {
    match extension(p) {
        Some(e) => e,
        None => Seq::empty(),
    }
}

/// A placeholder node with a name.
#[derive(Debug, Clone, PartialEq)]
pub struct DummyNode {
    /// The name of the node.
    pub name: String,
}

impl DummyNode {
    /// Creates a node with the name; an empty name is refused.
    pub fn new(name: String) -> (r: Result<DummyNode, String>)
        ensures
            name@.len() == 0 ==> (r matches Err(m) && m@ == "Name cannot be empty"@),
            name@.len() > 0 ==> (r matches Ok(d) && d.name@ == name@),
    {
        if name.as_str().is_empty() {
            Err(to_owned_string("Name cannot be empty"))
        } else {
            Ok(DummyNode { name })
        }
    }
}

} // verus!
