//! The table rows of the solution store: how a solution is encoded for the
//! database, how a search becomes SQL, and how a row becomes a solution again.

use vstd::prelude::*;

use crate::model::{opt_view, snippet_views, CodeSnippet, SnippetModel, Solution, SolutionModel};
use crate::text::{
    chars_of, extend_chars, is_white_space, is_white_space_char, owned, replace_all, replace_chars,
    string_of, string_views, views,
};

verus! {

/// The columns of one row of the `solutions` table.
#[derive(Debug, Clone, PartialEq, Eq)]
pub struct SolutionRow {
    pub id: i64,
    pub prompt_summary: String,
    pub commands_json: String,
    pub code_snippets_json: String,
    pub project_path: String,
    pub git_repo: Option<String>,
    pub is_pinned: i32,
    pub timestamp: i64,
}

/// The hexadecimal digit of `d` (lower case), for `0 <= d < 16`.
pub open spec fn hex_digit(d: int) -> char {
    if d < 10 {
        (d + 48) as char
    } else {
        (d + 87) as char
    }
}

/// How serde_json writes one character inside a JSON string: `"` and `\`
/// behind a backslash; backspace, form feed, line feed, carriage return and
/// tab as `\b`, `\f`, `\n`, `\r`, `\t`; other characters below U+0020 as
/// `\u00XX` in lower-case hex; every other character as it is.
pub open spec fn escaped_char(c: char) -> Seq<char> {
    let u = c as u32;
    if c == '"' {
        seq!['\\', '"']
    } else if c == '\\' {
        seq!['\\', '\\']
    } else if u == 0x08 {
        seq!['\\', 'b']
    } else if u == 0x0c {
        seq!['\\', 'f']
    } else if u == 0x0a {
        seq!['\\', 'n']
    } else if u == 0x0d {
        seq!['\\', 'r']
    } else if u == 0x09 {
        seq!['\\', 't']
    } else if u < 0x20 {
        seq!['\\', 'u', '0', '0', hex_digit((u / 16) as int), hex_digit((u % 16) as int)]
    } else {
        seq![c]
    }
}

/// The escaped characters of `s`, in order.
pub open spec fn escaped_text(s: Seq<char>) -> Seq<char>
    decreases s.len(),
{
    if s.len() == 0 {
        Seq::empty()
    } else {
        escaped_text(s.drop_last()) + escaped_char(s.last())
    }
}

/// The JSON string literal serde_json writes for `text`: the escaped text
/// between double quotes.
pub open spec fn json_string_literal(text: Seq<char>) -> Seq<char> {
    seq!['"'] + escaped_text(text) + seq!['"']
}

/// `items` separated by commas.
pub open spec fn comma_join(items: Seq<Seq<char>>) -> Seq<char>
    decreases items.len(),
{
    if items.len() == 0 {
        Seq::empty()
    } else if items.len() == 1 {
        items[0]
    } else {
        comma_join(items.drop_last()) + seq![','] + items.last()
    }
}

/// The JSON text serde_json writes for a list of strings: `[`, their string
/// literals separated by commas, `]`, without spaces.
pub open spec fn commands_json(commands: Seq<Seq<char>>) -> Seq<char> {
    seq!['['] + comma_join(commands.map_values(|c: Seq<char>| json_string_literal(c))) + seq![']']
}

/// Encodes a list of strings as JSON.
///
/// Trusted: calls `serde_json::to_string` on the `Vec<String>`; an error would
/// become `None`. The contract states the text as serde_json's serializer
/// writes it (`[`, the elements separated by `,`, `]`; each string escaped by
/// its escape table) and that the call succeeds: in the source, serializing a
/// sequence of strings only writes to the `Vec<u8>` that `to_string` fills,
/// and its only errors are ones that writer reports, which a `Vec<u8>` never
/// does.
#[verifier::external_body]
fn json_text_of_strings(items: &Vec<String>) -> (r: Option<String>)
    ensures
        r is Some,
        r matches Some(s) ==> s@ == commands_json(string_views(items@)),
{
    serde_json::to_string(items).ok()
}

/// The JSON text of a list of commands.
pub fn encode_commands(commands: &Vec<String>) -> (r: String)
    ensures
        r@ == commands_json(string_views(commands@)),
{
    match json_text_of_strings(commands) {
        Some(s) => s,
        None => String::new(),
    }
}

/// The stored form of a pin flag.
pub open spec fn pin_flag(pinned: bool) -> i32 {
    if pinned {
        1
    } else {
        0
    }
}

/// Whether `row` stores the solution `s`: its commands as JSON text, its pin
/// as `0` or `1`, everything but the snippets as it is (the snippets' JSON is
/// written by the caller).
pub open spec fn stores(row: SolutionRow, s: SolutionModel) -> bool {
    &&& row.id == s.id
    &&& row.prompt_summary@ == s.prompt_summary
    &&& row.commands_json@ == commands_json(s.commands)
    &&& row.project_path@ == s.project_path
    &&& opt_view(row.git_repo) == s.git_repo
    &&& row.is_pinned == pin_flag(s.is_pinned)
    &&& row.timestamp == s.timestamp
}

/// The row that stores `sol`, with `code_snippets_json` as its snippets column.
pub fn solution_row(sol: &Solution, code_snippets_json: String) -> (r: SolutionRow)
    ensures
        stores(r, sol@),
        r.code_snippets_json == code_snippets_json,
{
    let commands_json = encode_commands(&sol.commands);
    let git_repo = match &sol.git_repo {
        Some(g) => Some(g.clone()),
        None => None,
    };
    SolutionRow {
        id: sol.id,
        prompt_summary: sol.prompt_summary.clone(),
        commands_json,
        code_snippets_json,
        project_path: sol.project_path.clone(),
        git_repo,
        is_pinned: if sol.is_pinned { 1 } else { 0 },
        timestamp: sol.timestamp,
    }
}

/// A search statement with its positional parameters, in order.
#[derive(Debug, Clone, PartialEq, Eq)]
pub struct SearchQuery {
    pub sql: String,
    pub params: Vec<String>,
}

/// The view of an optional string slice.
pub open spec fn opt_str(o: Option<&str>) -> Option<Seq<char>> {
    match o {
        Some(s) => Some(s@),
        None => None,
    }
}

/// The words of a text scanned so far: the finished words and the word in progress.
pub struct WordScan {
    pub done: Seq<Seq<char>>,
    pub current: Seq<char>,
}

/// The word scan after one more character: white space ends the word in
/// progress, any other character extends it.
pub open spec fn word_step(st: WordScan, c: char) -> WordScan {
    if is_white_space(c) {
        if st.current.len() > 0 {
            WordScan { done: st.done.push(st.current), current: Seq::empty() }
        } else {
            st
        }
    } else {
        WordScan { done: st.done, current: st.current.push(c) }
    }
}

/// The word scan after the characters `s`, in order.
pub open spec fn word_scan(st: WordScan, s: Seq<char>) -> WordScan
    decreases s.len(),
{
    if s.len() == 0 {
        st
    } else {
        word_step(word_scan(st, s.drop_last()), s.last())
    }
}

/// The words of `s`: its maximal runs of characters that are not white space.
pub open spec fn words_of(s: Seq<char>) -> Seq<Seq<char>> {
    let f = word_scan(WordScan { done: Seq::empty(), current: Seq::empty() }, s);
    if f.current.len() > 0 {
        f.done.push(f.current)
    } else {
        f.done
    }
}

/// One word as an FTS5 term: a quoted string (inner quotes doubled) that
/// matches any token starting with it.
pub open spec fn fts_term(w: Seq<char>) -> Seq<char> {
    seq!['"'] + replace_all(w, seq!['"'], seq!['"', '"']) + seq!['"', '*']
}

/// `items` separated by single spaces.
pub open spec fn space_join(items: Seq<Seq<char>>) -> Seq<char>
    decreases items.len(),
{
    if items.len() == 0 {
        Seq::empty()
    } else if items.len() == 1 {
        items[0]
    } else {
        space_join(items.drop_last()) + seq![' '] + items.last()
    }
}

/// The FTS5 query for a search text: one term per word, all required.
pub open spec fn fts_query(q: Seq<char>) -> Seq<char> {
    space_join(words_of(q).map_values(|w: Seq<char>| fts_term(w)))
}

/// The full-text query of a search, where the query has a word.
pub open spec fn search_text(query: Option<Seq<char>>) -> Option<Seq<char>> {
    match query {
        Some(q) => if words_of(q).len() > 0 {
            Some(fts_query(q))
        } else {
            None
        },
        None => None,
    }
}

/// The SQL of a search: every column of `solutions`, filtered by pin, by
/// project path and by a match in the full-text index `solutions_fts` as
/// asked, newest first, at most 100 rows.
pub open spec fn search_sql(pinned_only: bool, by_path: bool, by_text: bool) -> Seq<char> {
    "SELECT id, prompt_summary, commands, code_snippets, project_path, git_repo, is_pinned, timestamp FROM solutions WHERE 1=1"@
        + (if pinned_only { " AND is_pinned = 1"@ } else { Seq::empty() })
        + (if by_path { " AND project_path = ?"@ } else { Seq::empty() })
        + (if by_text {
            " AND id IN (SELECT rowid FROM solutions_fts WHERE solutions_fts MATCH ?)"@
        } else {
            Seq::empty()
        })
        + " ORDER BY timestamp DESC LIMIT 100"@
}

/// The parameters of a search: the project path, then the full-text query.
pub open spec fn search_params(project_path: Option<Seq<char>>, text: Option<Seq<char>>) -> Seq<Seq<char>> {
    let by_path = match project_path {
        Some(p) => seq![p],
        None => Seq::empty(),
    };
    match text {
        Some(t) => by_path.push(t),
        None => by_path,
    }
}

/// The words of a text.
pub fn words(s: &Vec<char>) -> (r: Vec<Vec<char>>)
    ensures
        views(r@) == words_of(s@),
{
    let ghost start = WordScan { done: Seq::empty(), current: Seq::empty() };
    let mut done: Vec<Vec<char>> = Vec::new();
    let mut current: Vec<char> = Vec::new();
    let mut i: usize = 0;
    assert(s@.take(0) =~= Seq::<char>::empty());
    assert(views(done@) =~= Seq::<Seq<char>>::empty());
    assert(current@ =~= Seq::<char>::empty());
    while i < s.len()
        invariant
            i <= s.len(),
            word_scan(start, s@.take(i as int)) == (WordScan { done: views(done@), current: current@ }),
            start == (WordScan { done: Seq::empty(), current: Seq::empty() }),
        decreases s.len() - i,
    {
        assert(s@.take(i + 1).drop_last() =~= s@.take(i as int));
        assert(s@.take(i + 1).last() == s@[i as int]);
        let c = s[i];
        if is_white_space_char(c) {
            if current.len() > 0 {
                let ghost before = views(done@);
                let mut finished: Vec<char> = Vec::new();
                std::mem::swap(&mut finished, &mut current);
                done.push(finished);
                assert(views(done@) =~= before.push(finished@));
                assert(current@ =~= Seq::<char>::empty());
            }
        } else {
            current.push(c);
        }
        i += 1;
    }
    assert(s@.take(s.len() as int) =~= s@);
    if current.len() > 0 {
        let ghost before = views(done@);
        done.push(current);
        assert(views(done@) =~= before.push(done@.last()@));
    }
    done
}

/// The FTS5 term for one word.
fn fts_term_chars(w: &Vec<char>) -> (r: Vec<char>)
    ensures
        r@ == fts_term(w@),
{
    let mut quote: Vec<char> = Vec::new();
    quote.push('"');
    let mut doubled: Vec<char> = Vec::new();
    doubled.push('"');
    doubled.push('"');
    assert(quote@ =~= seq!['"']);
    assert(doubled@ =~= seq!['"', '"']);
    let mut r: Vec<char> = Vec::new();
    r.push('"');
    extend_chars(&mut r, &replace_chars(w, &quote, &doubled));
    r.push('"');
    r.push('*');
    assert(r@ =~= fts_term(w@));
    r
}

/// The FTS5 query for a search text.
pub fn fts_query_text(q: &str) -> (r: String)
    ensures
        r@ == fts_query(q@),
{
    let ws = words(&chars_of(q));
    let ghost terms = words_of(q@).map_values(|w: Seq<char>| fts_term(w));
    let mut r: Vec<char> = Vec::new();
    let mut i: usize = 0;
    assert(terms.take(0) =~= Seq::<Seq<char>>::empty());
    while i < ws.len()
        invariant
            i <= ws.len(),
            views(ws@) == words_of(q@),
            terms == words_of(q@).map_values(|w: Seq<char>| fts_term(w)),
            r@ == space_join(terms.take(i as int)),
        decreases ws.len() - i,
    {
        let t = fts_term_chars(&ws[i]);
        assert(views(ws@)[i as int] == ws@[i as int]@);
        if i > 0 {
            r.push(' ');
        }
        extend_chars(&mut r, &t);
        assert(terms.take(i + 1).drop_last() =~= terms.take(i as int));
        assert(terms.take(i + 1).last() == t@);
        proof {
            if i == 0 {
                assert(r@ =~= space_join(terms.take(1)));
            } else {
                assert(r@ =~= space_join(terms.take(i as int)) + seq![' '] + t@);
            }
        }
        i += 1;
    }
    assert(terms.take(ws.len() as int) =~= terms);
    string_of(&r)
}

/// The statement and parameters that search the store.
pub fn search_query(query: Option<&str>, project_path: Option<&str>, pinned_only: bool) -> (r: SearchQuery)
    ensures
        r.sql@ == search_sql(pinned_only, project_path is Some, search_text(opt_str(query)) is Some),
        string_views(r.params@) == search_params(opt_str(project_path), search_text(opt_str(query))),
{
    let mut sql = chars_of(
        "SELECT id, prompt_summary, commands, code_snippets, project_path, git_repo, is_pinned, timestamp FROM solutions WHERE 1=1",
    );
    let mut params: Vec<String> = Vec::new();
    let ghost base = sql@;
    if pinned_only {
        extend_chars(&mut sql, &chars_of(" AND is_pinned = 1"));
    }
    let ghost after_pin = sql@;
    assert(after_pin =~= base + (if pinned_only { " AND is_pinned = 1"@ } else { Seq::empty() }));
    match project_path {
        Some(path) => {
            extend_chars(&mut sql, &chars_of(" AND project_path = ?"));
            params.push(owned(path));
        },
        None => {},
    }
    let ghost after_path = sql@;
    let ghost path_params = string_views(params@);
    assert(after_path =~= after_pin + (if project_path is Some { " AND project_path = ?"@ } else { Seq::empty() }));
    assert(path_params =~= search_params(opt_str(project_path), None));
    let mut by_text = false;
    match query {
        Some(q) => {
            if words(&chars_of(q)).len() > 0 {
                by_text = true;
                extend_chars(
                    &mut sql,
                    &chars_of(" AND id IN (SELECT rowid FROM solutions_fts WHERE solutions_fts MATCH ?)"),
                );
                let t = fts_query_text(q);
                params.push(t);
                assert(string_views(params@) =~= path_params.push(fts_query(q@)));
            }
        },
        None => {},
    }
    assert(by_text == search_text(opt_str(query)) is Some);
    let ghost after_text = sql@;
    assert(after_text =~= after_path + (if by_text {
        " AND id IN (SELECT rowid FROM solutions_fts WHERE solutions_fts MATCH ?)"@
    } else {
        Seq::empty()
    }));
    extend_chars(&mut sql, &chars_of(" ORDER BY timestamp DESC LIMIT 100"));
    SearchQuery { sql: string_of(&sql), params }
}

/// The number of times `c` occurs in `s`.
pub open spec fn count_char(s: Seq<char>, c: char) -> nat
    decreases s.len(),
{
    if s.len() == 0 {
        0
    } else {
        count_char(s.drop_last(), c) + if s.last() == c {
            1nat
        } else {
            0nat
        }
    }
}

proof fn lemma_count_concat(a: Seq<char>, b: Seq<char>, c: char)
    ensures
        count_char(a + b, c) == count_char(a, c) + count_char(b, c),
    decreases b.len(),
{
    if b.len() == 0 {
        assert(a + b =~= a);
    } else {
        lemma_count_concat(a, b.drop_last(), c);
        assert((a + b).drop_last() =~= a + b.drop_last());
    }
}

/// A search statement has exactly one `?` placeholder per parameter.
pub proof fn search_placeholders_match_params(
    pinned_only: bool,
    project_path: Option<Seq<char>>,
    text: Option<Seq<char>>,
)
    ensures
        count_char(search_sql(pinned_only, project_path is Some, text is Some), '?')
            == search_params(project_path, text).len(),
{
    lemma_count_literals();
    let base = "SELECT id, prompt_summary, commands, code_snippets, project_path, git_repo, is_pinned, timestamp FROM solutions WHERE 1=1"@;
    let pin = if pinned_only { " AND is_pinned = 1"@ } else { Seq::empty() };
    let path = if project_path is Some { " AND project_path = ?"@ } else { Seq::empty() };
    let like = if text is Some {
        " AND id IN (SELECT rowid FROM solutions_fts WHERE solutions_fts MATCH ?)"@
    } else {
        Seq::empty()
    };
    let order = " ORDER BY timestamp DESC LIMIT 100"@;
    lemma_count_concat(base, pin, '?');
    lemma_count_concat(base + pin, path, '?');
    lemma_count_concat(base + pin + path, like, '?');
    lemma_count_concat(base + pin + path + like, order, '?');
}

proof fn lemma_count_absent(s: Seq<char>, c: char)
    requires
        forall|i: int| 0 <= i < s.len() ==> s[i] != c,
    ensures
        count_char(s, c) == 0,
    decreases s.len(),
{
    if s.len() > 0 {
        lemma_count_absent(s.drop_last(), c);
    }
}

proof fn lemma_count_literals()
    ensures
        count_char(
            "SELECT id, prompt_summary, commands, code_snippets, project_path, git_repo, is_pinned, timestamp FROM solutions WHERE 1=1"@,
            '?',
        ) == 0,
        count_char(" AND is_pinned = 1"@, '?') == 0,
        count_char(" AND project_path = ?"@, '?') == 1,
        count_char(" AND id IN (SELECT rowid FROM solutions_fts WHERE solutions_fts MATCH ?)"@, '?') == 1,
        count_char(" ORDER BY timestamp DESC LIMIT 100"@, '?') == 0,
{
    lemma_count_base();
    lemma_count_pin();
    lemma_count_path();
    lemma_count_like();
    lemma_count_order();
}

proof fn lemma_count_base()
    ensures
        count_char(
            "SELECT id, prompt_summary, commands, code_snippets, project_path, git_repo, is_pinned, timestamp FROM solutions WHERE 1=1"@,
            '?',
        ) == 0,
{
    reveal_strlit("SELECT id, prompt_summary, commands, code_snippets, project_path, git_repo, is_pinned, timestamp FROM solutions WHERE 1=1");
    lemma_count_absent(
        "SELECT id, prompt_summary, commands, code_snippets, project_path, git_repo, is_pinned, timestamp FROM solutions WHERE 1=1"@,
        '?',
    );
}

proof fn lemma_count_pin()
    ensures
        count_char(" AND is_pinned = 1"@, '?') == 0,
{
    reveal_strlit(" AND is_pinned = 1");
    lemma_count_absent(" AND is_pinned = 1"@, '?');
}

proof fn lemma_count_path()
    ensures
        count_char(" AND project_path = ?"@, '?') == 1,
{
    reveal_strlit(" AND project_path = ?");
    lemma_count_exactly_one(" AND project_path = ?"@, '?', 20);
}

proof fn lemma_count_like()
    ensures
        count_char(" AND id IN (SELECT rowid FROM solutions_fts WHERE solutions_fts MATCH ?)"@, '?') == 1,
{
    reveal_strlit(" AND id IN (SELECT rowid FROM solutions_fts WHERE solutions_fts MATCH ?)");
    lemma_count_exactly_one(" AND id IN (SELECT rowid FROM solutions_fts WHERE solutions_fts MATCH ?)"@, '?', 70);
}

proof fn lemma_count_exactly_one(s: Seq<char>, c: char, k: int)
    requires
        0 <= k < s.len(),
        s[k] == c,
        forall|i: int| 0 <= i < s.len() && i != k ==> s[i] != c,
    ensures
        count_char(s, c) == 1,
    decreases s.len(),
{
    if k == s.len() - 1 {
        lemma_count_absent(s.drop_last(), c);
    } else {
        lemma_count_exactly_one(s.drop_last(), c, k);
    }
}

proof fn lemma_count_order()
    ensures
        count_char(" ORDER BY timestamp DESC LIMIT 100"@, '?') == 0,
{
    reveal_strlit(" ORDER BY timestamp DESC LIMIT 100");
    lemma_count_absent(" ORDER BY timestamp DESC LIMIT 100"@, '?');
}

/// The list of strings that `serde_json` decodes from `text` as a
/// `Vec<String>`, or `None` where it reports an error.
pub uninterp spec fn json_string_list(text: Seq<char>) -> Option<Seq<Seq<char>>>;

/// The views of an optional list of strings.
pub open spec fn opt_strings(o: Option<Vec<String>>) -> Option<Seq<Seq<char>>> {
    match o {
        Some(v) => Some(string_views(v@)),
        None => None,
    }
}

/// The views of an optional list of snippets.
pub open spec fn opt_snippets(o: Option<Vec<CodeSnippet>>) -> Option<Seq<SnippetModel>> {
    match o {
        Some(v) => Some(snippet_views(v@)),
        None => None,
    }
}

/// Decodes a JSON array of strings.
///
/// Trusted: calls `serde_json::from_str::<Vec<String>>`; an error becomes
/// `None`. The contract names the result, and states that the text serde_json
/// writes for a list of strings (see [`commands_json`]) decodes to that list:
/// its parser reads each escape its serializer writes back to the character,
/// and an array of string literals back to the list of strings.
#[verifier::external_body]
fn decode_string_list(text: &str) -> (r: Option<Vec<String>>)
    ensures
        opt_strings(r) == json_string_list(text@),
        forall|cs: Seq<Seq<char>>| #[trigger] commands_json(cs) == text@ ==> opt_strings(r) == Some(cs),
{
    serde_json::from_str::<Vec<String>>(text).ok()
}

/// The solution a row holds, given its decoded lists (an undecodable list
/// counts as empty); any non-zero pin flag counts as pinned.
pub open spec fn row_solution(
    row: SolutionRow,
    commands: Option<Seq<Seq<char>>>,
    snippets: Option<Seq<SnippetModel>>,
) -> SolutionModel {
    SolutionModel {
        id: row.id,
        prompt_summary: row.prompt_summary@,
        commands: match commands {
            Some(c) => c,
            None => Seq::empty(),
        },
        code_snippets: match snippets {
            Some(s) => s,
            None => Seq::empty(),
        },
        project_path: row.project_path@,
        git_repo: opt_view(row.git_repo),
        is_pinned: row.is_pinned != 0,
        timestamp: row.timestamp,
    }
}

/// The solution a row holds, given its decoded command and snippet lists.
pub fn solution_from_row(
    row: SolutionRow,
    commands: Option<Vec<String>>,
    code_snippets: Option<Vec<CodeSnippet>>,
) -> (r: Solution)
    ensures
        r@ == row_solution(row, opt_strings(commands), opt_snippets(code_snippets)),
{
    let command_list = match commands {
        Some(c) => c,
        None => Vec::new(),
    };
    let snippet_list = match code_snippets {
        Some(s) => s,
        None => Vec::new(),
    };
    let r = Solution {
        id: row.id,
        prompt_summary: row.prompt_summary,
        commands: command_list,
        code_snippets: snippet_list,
        project_path: row.project_path,
        git_repo: row.git_repo,
        is_pinned: row.is_pinned != 0,
        timestamp: row.timestamp,
    };
    assert(r@.commands =~= row_solution(row, opt_strings(commands), opt_snippets(code_snippets)).commands);
    assert(r@.code_snippets =~= row_solution(row, opt_strings(commands), opt_snippets(code_snippets)).code_snippets);
    r
}

/// The solution a row holds: its commands are decoded here from their JSON
/// text; its snippets come decoded (or `None` where they did not decode).
///
/// What a read gives back of a write: for the row that stores a solution (see
/// [`solution_row`]), when its snippets decode to the solution's snippets,
/// the solution read back is the one stored.
pub fn load_solution(row: SolutionRow, code_snippets: Option<Vec<CodeSnippet>>) -> (r: Solution)
    ensures
        r@ == row_solution(row, json_string_list(row.commands_json@), opt_snippets(code_snippets)),
        forall|s: SolutionModel|
            #[trigger] stores(row, s) && opt_snippets(code_snippets) == Some(s.code_snippets) ==> r@
                == s,
{
    let ghost stored = row;
    let commands = decode_string_list(row.commands_json.as_str());
    let r = solution_from_row(row, commands, code_snippets);
    assert forall|s: SolutionModel|
        #[trigger] stores(stored, s) && opt_snippets(code_snippets) == Some(s.code_snippets) implies r@
            == s by {
        assert(commands_json(s.commands) == stored.commands_json@);
        assert(opt_strings(commands) == Some(s.commands));
    }
    r
}

/// The stored pin flag after a toggle.
pub open spec fn toggled(current: i32) -> i32 {
    if current == 0 {
        1
    } else {
        0
    }
}

/// A toggle flips whether a solution reads as pinned, and two toggles leave
/// the flag as `0` or `1` for what it read as.
pub proof fn toggle_flips_pin(current: i32)
    ensures
        (toggled(current) != 0) == !(current != 0),
        toggled(toggled(current)) == pin_flag(current != 0),
{
}

/// The pin flag to store when toggling `current`, and whether the solution is
/// pinned afterwards.
pub fn toggle_pin_value(current: i32) -> (r: (i32, bool))
    ensures
        r.0 == toggled(current),
        r.1 == (r.0 == 1),
{
    let new_pinned = if current == 0 {
        1
    } else {
        0
    };
    (new_pinned, new_pinned == 1)
}

} // verus!
