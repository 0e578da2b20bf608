//! Shard extraction: a tag-context state machine over the tokenizer's
//! events.  Inside a `page` record it assembles the title and the markup
//! body, tracks the redirect marker and the namespace filter in a skip flag,
//! and at the close of the `text` tag hands the assembled page over for
//! markup parsing and a store insert.

use vstd::prelude::*;

use crate::filter::is_title_excluded;
use crate::filter::title_excluded;
use crate::markup::node_link_target;
use crate::markup::parse_markup;
use crate::store::edges_of;
use crate::store::Store;
use crate::store::StoreError;
use crate::text::str_eq;
use crate::xml::read_token;
use crate::xml::reader_position;
use crate::xml::xml_reader;

verus! {

/// The cooperative budget handed to the markup parser for one page, in
/// milliseconds.
pub const PARSE_BUDGET_MS: u64 = 5000;

/// One tokenizer event, reduced to what the state machine reads.
#[derive(Debug)]
pub enum Token {
    /// A start tag, by name.
    Open(String),
    /// An end tag, by name.
    Close(String),
    /// An empty element tag, by name: an open and a close at once.
    Empty(String),
    /// Escaped character data between tags.
    Text(String),
    /// A general entity reference, named without its `&` and `;`.
    Ref(String),
    /// Any other markup event.
    Other,
    /// The end of the input.
    Eof,
    /// Malformed markup, with the byte offset reached.
    Malformed(u64),
}

/// The mathematical value of the machine state.
#[verifier::ext_equal]
pub struct ExtractorV {
    pub in_title: bool,
    pub in_text: bool,
    pub skip_page: bool,
    pub title: Seq<char>,
    pub body: Seq<char>,
}

/// An emitted page: the assembled title and markup body.
pub struct EmitV {
    pub title: Seq<char>,
    pub body: Seq<char>,
}

/// The machine state at the start of a shard.
pub open spec fn init_extractor() -> ExtractorV {
    ExtractorV {
        in_title: false,
        in_text: false,
        skip_page: false,
        title: Seq::empty(),
        body: Seq::empty(),
    }
}

/// The state after a start tag: `page` resets the buffers, `redirect` sets
/// the skip flag, `text` and `title` begin capture.
pub open spec fn on_open(pre: ExtractorV, name: Seq<char>) -> ExtractorV {
    if name == "page"@ {
        ExtractorV { title: Seq::empty(), body: Seq::empty(), ..pre }
    } else if name == "redirect"@ {
        ExtractorV { skip_page: true, ..pre }
    } else if name == "text"@ {
        ExtractorV { in_text: true, ..pre }
    } else if name == "title"@ {
        ExtractorV { in_title: true, ..pre }
    } else {
        pre
    }
}

/// The state after an end tag: `page` clears the skip flag, `text` ends body
/// capture, `title` ends title capture and applies the namespace filter to
/// the completed title.
pub open spec fn on_close(pre: ExtractorV, name: Seq<char>) -> ExtractorV {
    if name == "page"@ {
        ExtractorV { skip_page: false, ..pre }
    } else if name == "text"@ {
        ExtractorV { in_text: false, ..pre }
    } else if name == "title"@ {
        ExtractorV {
            in_title: false,
            skip_page: pre.skip_page || title_excluded(pre.title),
            ..pre
        }
    } else {
        pre
    }
}

/// What an end tag emits: the assembled page, at the close of `text`, unless
/// the page is being skipped.
pub open spec fn close_emits(pre: ExtractorV, name: Seq<char>) -> Option<EmitV> {
    if name == "text"@ && !pre.skip_page {
        Some(EmitV { title: pre.title, body: pre.body })
    } else {
        None
    }
}

/// The state after character data: appended to whichever of the title and
/// body buffers is capturing, unless the page is being skipped.
pub open spec fn on_chars(pre: ExtractorV, s: Seq<char>) -> ExtractorV {
    if pre.skip_page {
        pre
    } else {
        let mid = if pre.in_text {
            ExtractorV { body: pre.body + s, ..pre }
        } else {
            pre
        };
        if pre.in_title {
            ExtractorV { title: mid.title + s, ..mid }
        } else {
            mid
        }
    }
}

/// The character data an entity reference contributes: the escaped form it
/// had in the input.
pub open spec fn ref_chars(name: Seq<char>) -> Seq<char> {
    seq!['&'] + name + seq![';']
}

/// The machine's transition on one token.
pub open spec fn step_state(pre: ExtractorV, t: Token) -> ExtractorV {
    match t {
        Token::Open(name) => on_open(pre, name@),
        Token::Close(name) => on_close(pre, name@),
        Token::Empty(name) => on_close(on_open(pre, name@), name@),
        Token::Text(s) => on_chars(pre, s@),
        Token::Ref(name) => on_chars(pre, ref_chars(name@)),
        Token::Other => pre,
        Token::Eof => pre,
        Token::Malformed(_) => pre,
    }
}

/// What one token emits.
pub open spec fn step_emit(pre: ExtractorV, t: Token) -> Option<EmitV> {
    match t {
        Token::Close(name) => close_emits(pre, name@),
        Token::Empty(name) => close_emits(on_open(pre, name@), name@),
        _ => None,
    }
}

/// The tag-context state machine of one extraction worker.
pub struct Extractor {
    in_title: bool,
    in_text: bool,
    skip_page: bool,
    title: String,
    body: String,
}

impl View for Extractor {
    type V = ExtractorV;

    closed spec fn view(&self) -> ExtractorV {
        ExtractorV {
            in_title: self.in_title,
            in_text: self.in_text,
            skip_page: self.skip_page,
            title: self.title@,
            body: self.body@,
        }
    }
}

/// An assembled page handed over for markup parsing.
pub struct PageJob {
    pub title: String,
    pub body: String,
}

impl Extractor {
    /// A machine in its initial state.
    pub fn new() -> (e: Extractor)
        ensures
            e@ == init_extractor(),
    {
        let e = Extractor {
            in_title: false,
            in_text: false,
            skip_page: false,
            title: String::new(),
            body: String::new(),
        };
        proof {
            assert(e@ =~= init_extractor());
        }
        e
    }

    fn apply_open(&mut self, name: &String)
        ensures
            final (self)@ == on_open(old(self)@, name@),
    {
        if str_eq(name.as_str(), "page") {
            self.title = String::new();
            self.body = String::new();
        } else if str_eq(name.as_str(), "redirect") {
            self.skip_page = true;
        } else if str_eq(name.as_str(), "text") {
            self.in_text = true;
        } else if str_eq(name.as_str(), "title") {
            self.in_title = true;
        }
        proof {
            assert(self@ =~= on_open(old(self)@, name@));
        }
    }

    fn apply_close(&mut self, name: &String) -> (job: Option<PageJob>)
        ensures
            final (self)@ == on_close(old(self)@, name@),
            match job {
                Some(j) => close_emits(old(self)@, name@) == Some(
                    EmitV { title: j.title@, body: j.body@ },
                ),
                None => close_emits(old(self)@, name@) is None,
            },
    {
        proof {
            reveal_strlit("page");
            reveal_strlit("text");
            assert("page"@[0] == 'p');
            assert("text"@[0] == 't');
            assert("page"@ != "text"@);
        }
        let job = if str_eq(name.as_str(), "page") {
            self.skip_page = false;
            None
        } else if str_eq(name.as_str(), "text") {
            self.in_text = false;
            if !self.skip_page {
                Some(PageJob { title: self.title.clone(), body: self.body.clone() })
            } else {
                None
            }
        } else if str_eq(name.as_str(), "title") {
            self.in_title = false;
            if is_title_excluded(self.title.as_str()) {
                self.skip_page = true;
            }
            None
        } else {
            None
        };
        proof {
            assert(self@ =~= on_close(old(self)@, name@));
        }
        job
    }

    fn apply_chars(&mut self, s: &str)
        ensures
            final (self)@ == on_chars(old(self)@, s@),
    {
        if !self.skip_page {
            if self.in_text {
                self.body.append(s);
            }
            if self.in_title {
                self.title.append(s);
            }
        }
        proof {
            assert(self@ =~= on_chars(old(self)@, s@));
        }
    }

    /// Consumes one token and returns the page it emits, if any.
    pub fn step(&mut self, t: Token) -> (job: Option<PageJob>)
        ensures
            final (self)@ == step_state(old(self)@, t),
            match job {
                Some(j) => step_emit(old(self)@, t) == Some(
                    EmitV { title: j.title@, body: j.body@ },
                ),
                None => step_emit(old(self)@, t) is None,
            },
    {
        match t {
            Token::Open(name) => {
                self.apply_open(&name);
                None
            },
            Token::Close(name) => self.apply_close(&name),
            Token::Empty(name) => {
                self.apply_open(&name);
                self.apply_close(&name)
            },
            Token::Text(s) => {
                self.apply_chars(s.as_str());
                None
            },
            Token::Ref(name) => {
                let mut escaped = String::new();
                escaped.append("&");
                escaped.append(name.as_str());
                escaped.append(";");
                proof {
                    reveal_strlit("&");
                    reveal_strlit(";");
                    assert(escaped@ =~= ref_chars(name@));
                }
                self.apply_chars(escaped.as_str());
                None
            },
            Token::Other => None,
            Token::Eof => None,
            Token::Malformed(_) => None,
        }
    }
}

/// `t` opens tag `name`.
pub open spec fn opens(t: Token, name: Seq<char>) -> bool {
    match t {
        Token::Open(n) => n@ == name,
        _ => false,
    }
}

/// `t` closes tag `name`.
pub open spec fn closes(t: Token, name: Seq<char>) -> bool {
    match t {
        Token::Close(n) => n@ == name,
        _ => false,
    }
}

/// `t` is character data with content `s`.
pub open spec fn texts(t: Token, s: Seq<char>) -> bool {
    match t {
        Token::Text(x) => x@ == s,
        _ => false,
    }
}

/// `t` performs the close of a `page` record, alone or as an empty element.
pub open spec fn closes_page(t: Token) -> bool {
    match t {
        Token::Close(n) => n@ == "page"@,
        Token::Empty(n) => n@ == "page"@,
        _ => false,
    }
}

/// The machine state after consuming all of `ts`.
pub open spec fn run_state(pre: ExtractorV, ts: Seq<Token>) -> ExtractorV
    decreases ts.len(),
{
    if ts.len() == 0 {
        pre
    } else {
        run_state(step_state(pre, ts[0]), ts.drop_first())
    }
}

/// The pages emitted while consuming `ts`, in order.
pub open spec fn run_emits(pre: ExtractorV, ts: Seq<Token>) -> Seq<EmitV>
    decreases ts.len(),
{
    if ts.len() == 0 {
        Seq::<EmitV>::empty()
    } else {
        let rest = run_emits(step_state(pre, ts[0]), ts.drop_first());
        match step_emit(pre, ts[0]) {
            Some(e) => seq![e] + rest,
            None => rest,
        }
    }
}

proof fn lemma_skip_step(pre: ExtractorV, t: Token)
    requires
        pre.skip_page,
        !closes_page(t),
    ensures
        step_state(pre, t).skip_page,
        step_emit(pre, t) is None,
{
}

/// While the skip flag is set, no page is emitted and the flag stays set,
/// until the record closes.
pub proof fn lemma_skip_emits_nothing(pre: ExtractorV, ts: Seq<Token>)
    requires
        pre.skip_page,
        forall|i: int| 0 <= i < ts.len() ==> !closes_page(#[trigger] ts[i]),
    ensures
        run_emits(pre, ts) == Seq::<EmitV>::empty(),
        run_state(pre, ts).skip_page,
    decreases ts.len(),
{
    if ts.len() > 0 {
        lemma_skip_step(pre, ts[0]);
        let next = step_state(pre, ts[0]);
        assert forall|i: int|
            0 <= i < ts.drop_first().len() implies !closes_page(
            #[trigger] ts.drop_first()[i],
        ) by {
            assert(ts.drop_first()[i] == ts[i + 1]);
        }
        lemma_skip_emits_nothing(next, ts.drop_first());
    }
}

/// Filter correctness at the state machine: a page record whose completed
/// title lies in a disallowed namespace emits nothing — the filter sets the
/// skip flag at the title's close, and no page is handed over before the
/// record closes.  Since pages reach the store only as emitted jobs, such a
/// page contributes no article row and no edge rows.
pub proof fn lemma_excluded_title_page_emits_nothing(
    pre: ExtractorV,
    ts: Seq<Token>,
    ttl: Seq<char>,
)
    requires
        ts.len() >= 4,
        opens(ts[0], "page"@),
        opens(ts[1], "title"@),
        texts(ts[2], ttl),
        closes(ts[3], "title"@),
        title_excluded(ttl),
        forall|i: int| 4 <= i < ts.len() ==> !closes_page(#[trigger] ts[i]),
    ensures
        run_emits(pre, ts) == Seq::<EmitV>::empty(),
{
    reveal_strlit("title");
    reveal_strlit("text");
    reveal_strlit("page");
    reveal_strlit("redirect");
    assert("title"@.len() == 5);
    assert("text"@.len() == 4);
    assert("page"@.len() == 4);
    assert("redirect"@.len() == 8);
    assert("page"@[0] == 'p' && "text"@[0] == 't');
    let s1 = step_state(pre, ts[0]);
    let s2 = step_state(s1, ts[1]);
    let s3 = step_state(s2, ts[2]);
    let s4 = step_state(s3, ts[3]);
    assert(s1.title =~= Seq::<char>::empty());
    if !pre.skip_page {
        assert(s3.title =~= ttl);
    }
    assert(s4.skip_page);
    let ts1 = ts.drop_first();
    let ts2 = ts1.drop_first();
    let ts3 = ts2.drop_first();
    let ts4 = ts3.drop_first();
    assert(ts1[0] == ts[1]);
    assert(ts2[0] == ts[2]);
    assert(ts3[0] == ts[3]);
    assert(ts4 =~= ts.skip(4));
    assert(step_emit(pre, ts[0]) is None);
    assert(step_emit(s1, ts[1]) is None);
    assert(step_emit(s2, ts[2]) is None);
    assert(step_emit(s3, ts[3]) is None);
    assert(run_emits(pre, ts) == run_emits(s1, ts1));
    assert(run_emits(s1, ts1) == run_emits(s2, ts2));
    assert(run_emits(s2, ts2) == run_emits(s3, ts3));
    assert(run_emits(s3, ts3) == run_emits(s4, ts4));
    assert forall|i: int| 0 <= i < ts4.len() implies !closes_page(#[trigger] ts4[i]) by {
        assert(ts4[i] == ts[i + 4]);
    }
    lemma_skip_emits_nothing(s4, ts4);
}

/// What became of one assembled page.
#[derive(Clone, Copy, Debug, PartialEq, Eq, Structural)]
pub enum PageDisposition {
    /// Its article row and all its edge rows were inserted.
    Stored,
    /// It had no links at all, so it was dropped.
    NoLinks,
    /// One of its link targets lay in a disallowed namespace, so the whole
    /// page was dropped, earlier targets included.
    TargetExcluded,
    /// An article row with its title already existed; nothing was inserted.
    DuplicateTitle,
    /// The markup parse failed or ran out of its budget; the title went to
    /// the unparseable log.
    Unparseable,
}

fn collect_link_targets<'a>(nodes: &Vec<parse_wiki_text_2::Node<'a>>) -> Vec<String> {
    let mut targets: Vec<String> = Vec::new();
    let mut i: usize = 0;
    while i < nodes.len()
        invariant
            i <= nodes@.len(),
        decreases nodes@.len() - i,
    {
        match node_link_target(&nodes[i]) {
            Some(t) => targets.push(t),
            None => {},
        }
        i += 1;
    }
    targets
}

/// Applies one parsed page's link targets to the store.
///
/// A target in a disallowed namespace drops the whole page; a page without
/// targets is dropped; otherwise the page's article row and one edge row per
/// target are inserted all at once, unless the title is already present.
pub fn apply_page_links(title: &String, targets: &Vec<String>, store: &mut Store) -> (d:
    PageDisposition)
    requires
        old(store).wf(),
    ensures
        final (store).wf(),
        match d {
            PageDisposition::TargetExcluded => {
                &&& exists|i: int|
                    0 <= i < targets@.len() && title_excluded(#[trigger] targets@[i]@)
                &&& final (store)@ == old(store)@
            },
            PageDisposition::NoLinks => {
                &&& targets@.len() == 0
                &&& final (store)@ == old(store)@
            },
            PageDisposition::DuplicateTitle => {
                &&& targets@.len() > 0
                &&& forall|i: int|
                    0 <= i < targets@.len() ==> !title_excluded(#[trigger] targets@[i]@)
                &&& old(store)@.articles.contains(title@)
                &&& final (store)@ == old(store)@
            },
            PageDisposition::Stored => {
                &&& targets@.len() > 0
                &&& forall|i: int|
                    0 <= i < targets@.len() ==> !title_excluded(#[trigger] targets@[i]@)
                &&& !old(store)@.articles.contains(title@)
                &&& final (store)@.articles == old(store)@.articles.push(title@)
                &&& final (store)@.edges == old(store)@.edges + edges_of(
                    title@,
                    targets@.map_values(|l: String| l@),
                )
            },
            PageDisposition::Unparseable => false,
        },
{
    let mut i: usize = 0;
    while i < targets.len()
        invariant
            i <= targets@.len(),
            old(store).wf(),
            store@ == old(store)@,
            store.wf(),
            forall|k: int| 0 <= k < i ==> !title_excluded(#[trigger] targets@[k]@),
        decreases targets@.len() - i,
    {
        if is_title_excluded(targets[i].as_str()) {
            return PageDisposition::TargetExcluded;
        }
        i += 1;
    }
    if targets.len() == 0 {
        return PageDisposition::NoLinks;
    }
    match store.insert_page(title, targets) {
        Ok(()) => PageDisposition::Stored,
        Err(StoreError::DuplicateTitle) => PageDisposition::DuplicateTitle,
    }
}

/// Parses one assembled page's markup under the time budget and applies it.
///
/// A failed or timed-out parse records the title in the unparseable log and
/// leaves the store untouched; otherwise the page's top-level link targets
/// are applied as `apply_page_links` does.
pub fn process_page(
    config: &parse_wiki_text_2::Configuration,
    title: &String,
    body: &String,
    budget_ms: u64,
    store: &mut Store,
    unparseables: &mut Vec<String>,
) -> (d: PageDisposition)
    requires
        old(store).wf(),
    ensures
        final (store).wf(),
        match d {
            PageDisposition::Unparseable => {
                &&& final (store)@ == old(store)@
                &&& final (unparseables)@ == old(unparseables)@.push(*title)
            },
            PageDisposition::TargetExcluded => {
                &&& final (store)@ == old(store)@
                &&& final (unparseables)@ == old(unparseables)@
            },
            PageDisposition::NoLinks => {
                &&& final (store)@ == old(store)@
                &&& final (unparseables)@ == old(unparseables)@
            },
            PageDisposition::DuplicateTitle => {
                &&& old(store)@.articles.contains(title@)
                &&& final (store)@ == old(store)@
                &&& final (unparseables)@ == old(unparseables)@
            },
            PageDisposition::Stored => {
                &&& !old(store)@.articles.contains(title@)
                &&& final (store)@.articles == old(store)@.articles.push(title@)
                &&& exists|links: Seq<Seq<char>>|
                    #![auto]
                    links.len() > 0 && (forall|i: int|
                        0 <= i < links.len() ==> !title_excluded(links[i])) && final (
                    store)@.edges == old(store)@.edges + edges_of(title@, links)
                &&& final (unparseables)@ == old(unparseables)@
            },
        },
{
    match parse_markup(config, body.as_str(), budget_ms) {
        None => {
            unparseables.push(title.clone());
            proof {
                assert(unparseables@ =~= old(unparseables)@.push(*title));
            }
            PageDisposition::Unparseable
        },
        Some(nodes) => {
            let targets = collect_link_targets(&nodes);
            let d = apply_page_links(title, &targets, store);
            proof {
                if d is Stored {
                    let links = targets@.map_values(|l: String| l@);
                    assert(links.len() > 0 && (forall|i: int|
                        0 <= i < links.len() ==> !title_excluded(links[i])) && store@.edges == old(
                    store)@.edges + edges_of(title@, links));
                }
            }
            d
        },
    }
}

/// A fatal tokenizer failure, with the byte offset it reports.
#[derive(Clone, Copy, Debug, PartialEq, Eq, Structural)]
pub struct StreamParseError {
    pub position: u64,
}

/// What one worker extracted from its shard: the shard-local store and the
/// titles whose markup could not be parsed.
pub struct ShardOutput {
    pub store: Store,
    pub unparseables: Vec<String>,
}

/// Runs one extraction worker over a shard's bytes: drives the tokenizer
/// through the state machine, parses each assembled page's markup under the
/// budget, and fills a fresh shard-local store.
///
/// Malformed markup is fatal to the worker and reported with its byte
/// offset; what the store then holds is said by the contracts of
/// [`Extractor::step`], [`process_page`] and [`apply_page_links`], which the
/// loop applies token by token.
pub fn extract_shard(
    config: &parse_wiki_text_2::Configuration,
    data: &[u8],
    budget_ms: u64,
) -> (r: Result<ShardOutput, StreamParseError>)
    requires
        data@.len() < usize::MAX,
    ensures
        match r {
            Ok(out) => out.store.wf(),
            Err(_) => true,
        },
{
    let mut reader = xml_reader(data);
    let mut buf: Vec<u8> = Vec::new();
    let mut machine = Extractor::new();
    let mut store = Store::new();
    let mut unparseables: Vec<String> = Vec::new();
    // One token per input byte is more than any event stream reaches; a
    // tokenizer that still has not said Eof by then is reported at the
    // offset it stands at.
    let mut fuel: usize = data.len() + 1;
    loop
        invariant
            store.wf(),
        decreases fuel,
    {
        if fuel == 0 {
            return Err(StreamParseError { position: reader_position(&reader) });
        }
        fuel -= 1;
        let t = read_token(&mut reader, &mut buf);
        match t {
            Token::Eof => {
                return Ok(ShardOutput { store, unparseables });
            },
            Token::Malformed(pos) => {
                return Err(StreamParseError { position: pos });
            },
            tok => {
                match machine.step(tok) {
                    Some(job) => {
                        process_page(
                            config,
                            &job.title,
                            &job.body,
                            budget_ms,
                            &mut store,
                            &mut unparseables,
                        );
                    },
                    None => {},
                }
            },
        }
    }
}

} // verus!
