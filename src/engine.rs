//! The sync engine: the active template set, its changes, and the content to write.
use vstd::prelude::*;
use crate::header::{decode, decode_spec, encode, encode_spec};
use crate::normalize::{body_of, body_spec, normalize, normalize_spec, render_spec};
use crate::text::{contains, texts};

verus! {

/// `c` is the managed file for the active set `s`, built from an answer that `engine`
/// gives for exactly the names of `s`.
pub open spec fn rendered<E: Engine>(engine: &E, s: Seq<Seq<char>>, c: Seq<char>) -> bool {
    exists|raw: Seq<char>| engine.gives(s, raw) && #[trigger] render_spec(s, raw) == c
}

/// `c` is the managed file for `s`, built from an answer that `engine` gives for the
/// names of `s`, and `shown` is what a listing shows from that same answer: the
/// pattern lines when `all`, else `s`.
pub open spec fn listed<E: Engine>(
    engine: &E,
    s: Seq<Seq<char>>,
    all: bool,
    shown: Seq<Seq<char>>,
    c: Seq<char>,
) -> bool {
    exists|raw: Seq<char>|
        engine.gives(s, raw) && #[trigger] render_spec(s, raw) == c && shown == (if all {
            normalize_spec(raw)
        } else {
            s
        })
}

/// `s` with each of `ns` appended, in order, unless it is already there.
pub open spec fn add_spec(s: Seq<Seq<char>>, ns: Seq<Seq<char>>) -> Seq<Seq<char>>
    decreases ns.len(),
{
    if ns.len() == 0 {
        s
    } else {
        let t = add_spec(s, ns.drop_last());
        if t.contains(ns.last()) {
            t
        } else {
            t.push(ns.last())
        }
    }
}

/// `s` without the entries that occur in `ns`, the others in order.
pub open spec fn remove_spec(s: Seq<Seq<char>>, ns: Seq<Seq<char>>) -> Seq<Seq<char>>
    decreases s.len(),
{
    if s.len() == 0 {
        s
    } else {
        let t = remove_spec(s.drop_last(), ns);
        if ns.contains(s.last()) {
            t
        } else {
            t.push(s.last())
        }
    }
}

/// The source of template content: raw pattern text for a list of template names.
pub trait Engine {
    /// `raw` is an answer that this resolver gives for the template names `names`.
    /// A resolver that states nothing of its answers admits every one; code that is
    /// generic over the resolver never relies on that default.
    open spec fn gives(&self, names: Seq<Seq<char>>, raw: Seq<char>) -> bool {
        true
    }

    /// `msg` is a failure that this resolver reports for the template names `names`,
    /// with the same default as `gives`.
    open spec fn refuses(&self, names: Seq<Seq<char>>, msg: Seq<char>) -> bool {
        true
    }

    /// The raw pattern text of `templates`, or a message saying why it cannot be had.
    fn fetch_gitignore(&self, templates: &Vec<String>) -> (r: Result<String, String>)
        ensures
            r matches Ok(raw) ==> self.gives(texts(templates@), raw@),
            r matches Err(e) ==> self.refuses(texts(templates@), e@),
    ;

    /// The pattern lines of `templates`.
    fn fetch_excludings(&self, templates: &Vec<String>) -> (r: Result<Vec<String>, String>)
        default_ensures
            r matches Ok(v) ==> exists|raw: Seq<char>|
                self.gives(texts(templates@), raw) && #[trigger] normalize_spec(raw) == texts(v@),
            r matches Err(e) ==> self.refuses(texts(templates@), e@),
    {
        match self.fetch_gitignore(templates) {
            Ok(raw) => Ok(normalize(raw.as_str())),
            Err(e) => Err(e),
        }
    }

    /// The body of the managed file for `templates`.
    fn fetch_clean_gitignore(&self, templates: &Vec<String>) -> (r: Result<String, String>)
        default_ensures
            r matches Ok(b) ==> exists|raw: Seq<char>|
                self.gives(texts(templates@), raw) && #[trigger] body_spec(normalize_spec(raw))
                    == b@,
            r matches Err(e) ==> self.refuses(texts(templates@), e@),
    {
        match self.fetch_gitignore(templates) {
            Ok(raw) => {
                let ls = normalize(raw.as_str());
                Ok(body_of(&ls))
            },
            Err(e) => Err(e),
        }
    }
}

/// What the managed file is to become.
pub enum Action {
    /// Replace its whole content by this text, creating the file if needed.
    Write(String),
    /// Remove the file.
    Remove,
}

/// The result of a listing: the lines to show and the content to write afterwards.
pub struct Listing {
    pub shown: Vec<String>,
    pub content: String,
}

/// The operations of the command surface on an active template set.
pub trait Handshakable {
    /// The active template set.
    spec fn active_set(&self) -> Seq<Seq<char>>;

    /// Appends the templates of `names` that are not active yet, then regenerates.
    fn add<E: Engine>(&mut self, names: Vec<String>, engine: &E) -> (r: Result<Action, String>)
        ensures
            final(self).active_set() == add_spec(old(self).active_set(), texts(names@)),
            r matches Ok(a) ==> (a matches Action::Write(c) && rendered(
                engine,
                final(self).active_set(),
                c@,
            )),
            r matches Err(e) ==> engine.refuses(final(self).active_set(), e@),
    ;

    /// The active templates, or with `all` their pattern lines, and the regenerated file.
    fn list<E: Engine>(&mut self, all: bool, engine: &E) -> (r: Result<Listing, String>)
        ensures
            final(self).active_set() == old(self).active_set(),
            r matches Ok(l) ==> listed(
                engine,
                final(self).active_set(),
                all,
                texts(l.shown@),
                l.content@,
            ),
            r matches Err(e) ==> engine.refuses(final(self).active_set(), e@),
    ;

    /// With `all`, removes the file; otherwise drops the templates of `names` and
    /// regenerates.
    fn delete<E: Engine>(&mut self, all: bool, names: Vec<String>, engine: &E) -> (r: Result<
        Action,
        String,
    >)
        ensures
            all ==> final(self).active_set() == old(self).active_set() && r matches Ok(
                Action::Remove,
            ),
            !all ==> final(self).active_set() == remove_spec(
                old(self).active_set(),
                texts(names@),
            ),
            !all ==> (r matches Ok(a) ==> (a matches Action::Write(c) && rendered(
                engine,
                final(self).active_set(),
                c@,
            ))),
            !all ==> (r matches Err(e) ==> engine.refuses(final(self).active_set(), e@)),
    ;

    /// Whether `query` names an active template.
    fn search(&self, query: String) -> (r: bool)
        ensures
            r == self.active_set().contains(query@),
    ;

    /// Regenerates the file from the active set as it stands.
    fn update<E: Engine>(&mut self, engine: &E) -> (r: Result<Action, String>)
        ensures
            final(self).active_set() == old(self).active_set(),
            r matches Ok(a) ==> (a matches Action::Write(c) && rendered(
                engine,
                final(self).active_set(),
                c@,
            )),
            r matches Err(e) ==> engine.refuses(final(self).active_set(), e@),
    ;
}

/// The sync engine: the active template set of one managed file.
pub struct DefaultEngine {
    templates: Vec<String>,
}

impl View for DefaultEngine {
    type V = Seq<Seq<char>>;

    closed spec fn view(&self) -> Seq<Seq<char>> {
        texts(self.templates@)
    }
}

impl DefaultEngine {
    /// The active set recorded in the managed file's contents, or the empty set when
    /// the file could not be read.
    pub fn fetch_templates(content: Option<String>) -> (r: Vec<String>)
        ensures
            texts(r@) == match content {
                Some(c) => decode_spec(c@),
                None => Seq::empty(),
            },
    {
        match content {
            Some(c) => decode(c.as_str()),
            None => {
                let v: Vec<String> = Vec::new();
                assert(texts(v@) =~= Seq::<Seq<char>>::empty());
                v
            },
        }
    }

    /// An engine loaded from the managed file's contents (`None` when it is absent).
    pub fn init(content: Option<String>) -> (r: DefaultEngine)
        ensures
            r@ == match content {
                Some(c) => decode_spec(c@),
                None => Seq::empty(),
            },
    {
        let templates = DefaultEngine::fetch_templates(content);
        DefaultEngine { templates }
    }

    /// The active templates.
    pub fn get_templates(&self) -> (r: Vec<String>)
        ensures
            texts(r@) == self@,
    {
        self.templates.clone()
    }

    /// The header line for the active set.
    pub fn define_head(&self) -> (r: String)
        ensures
            r@ == encode_spec(self@),
    {
        encode(&self.templates)
    }

    /// The whole managed file for the active set, given the raw text its templates
    /// resolve to.
    pub fn regenerate(&self, raw: &str) -> (r: String)
        ensures
            r@ == render_spec(self@, raw@),
    {
        let mut content = self.define_head();
        let ls = normalize(raw);
        let body = body_of(&ls);
        proof {
            reveal_strlit("\n");
        }
        content.append("\n");
        content.append(body.as_str());
        content
    }

    /// The body of the managed file for the active set, from `engine`.
    pub fn define_body<E: Engine>(&self, engine: &E) -> (r: Result<String, String>)
        ensures
            r matches Ok(b) ==> exists|raw: Seq<char>|
                engine.gives(self@, raw) && #[trigger] body_spec(normalize_spec(raw)) == b@,
            r matches Err(e) ==> engine.refuses(self@, e@),
    {
        match engine.fetch_gitignore(&self.templates) {
            Ok(raw) => {
                let ls = normalize(raw.as_str());
                Ok(body_of(&ls))
            },
            Err(e) => Err(e),
        }
    }

    /// The whole managed file for the active set, with template content from `engine`.
    pub fn render<E: Engine>(&self, engine: &E) -> (r: Result<String, String>)
        ensures
            r matches Ok(c) ==> rendered(engine, self@, c@),
            r matches Err(e) ==> engine.refuses(self@, e@),
    {
        match engine.fetch_gitignore(&self.templates) {
            Ok(raw) => {
                let c = self.regenerate(raw.as_str());
                assert(render_spec(self@, raw@) == c@);
                Ok(c)
            },
            Err(e) => Err(e),
        }
    }
}

impl Handshakable for DefaultEngine {
    open spec fn active_set(&self) -> Seq<Seq<char>> {
        self@
    }

    fn add<E: Engine>(&mut self, names: Vec<String>, engine: &E) -> (r: Result<Action, String>) {
        let ghost start = self@;
        let mut i: usize = 0;
        assert(texts(names@).take(0) =~= Seq::<Seq<char>>::empty());
        while i < names.len()
            invariant
                i <= names.len(),
                self@ == add_spec(start, texts(names@).take(i as int)),
            decreases names.len() - i,
        {
            assert(texts(names@).take(i + 1).drop_last() =~= texts(names@).take(i as int));
            assert(texts(names@).take(i + 1).last() == names@[i as int]@);
            if !contains(&self.templates, &names[i]) {
                let n = names[i].clone();
                assert(texts(self.templates@.push(n)) =~= texts(self.templates@).push(n@));
                self.templates.push(n);
            }
            i = i + 1;
        }
        assert(texts(names@).take(names.len() as int) =~= texts(names@));
        match self.render(engine) {
            Ok(c) => Ok(Action::Write(c)),
            Err(e) => Err(e),
        }
    }

    fn list<E: Engine>(&mut self, all: bool, engine: &E) -> (r: Result<Listing, String>) {
        match engine.fetch_gitignore(&self.templates) {
            Ok(raw) => {
                let content = self.regenerate(raw.as_str());
                assert(texts(self.templates@) == self@);
                let shown = if all {
                    normalize(raw.as_str())
                } else {
                    self.get_templates()
                };
                assert(render_spec(self@, raw@) == content@);
                Ok(Listing { shown, content })
            },
            Err(e) => Err(e),
        }
    }

    fn delete<E: Engine>(&mut self, all: bool, names: Vec<String>, engine: &E) -> (r: Result<
        Action,
        String,
    >) {
        if all {
            return Ok(Action::Remove);
        }
        let mut kept: Vec<String> = Vec::new();
        let mut i: usize = 0;
        assert(texts(self.templates@).take(0) =~= Seq::<Seq<char>>::empty());
        assert(texts(kept@) =~= Seq::<Seq<char>>::empty());
        while i < self.templates.len()
            invariant
                i <= self.templates.len(),
                texts(kept@) == remove_spec(texts(self.templates@).take(i as int), texts(names@)),
            decreases self.templates.len() - i,
        {
            assert(texts(self.templates@).take(i + 1).drop_last() =~= texts(
                self.templates@,
            ).take(i as int));
            assert(texts(self.templates@).take(i + 1).last() == self.templates@[i as int]@);
            if !contains(&names, &self.templates[i]) {
                let t = self.templates[i].clone();
                assert(texts(kept@.push(t)) =~= texts(kept@).push(t@));
                kept.push(t);
            }
            i = i + 1;
        }
        assert(texts(self.templates@).take(self.templates.len() as int) =~= texts(
            self.templates@,
        ));
        self.templates = kept;
        match self.render(engine) {
            Ok(c) => Ok(Action::Write(c)),
            Err(e) => Err(e),
        }
    }

    fn search(&self, query: String) -> (r: bool) {
        contains(&self.templates, &query)
    }

    fn update<E: Engine>(&mut self, engine: &E) -> (r: Result<Action, String>) {
        match self.render(engine) {
            Ok(c) => Ok(Action::Write(c)),
            Err(e) => Err(e),
        }
    }
}

} // verus!
