//! The router: an immutable mapping from request-line literals to
//! `(status line, template name)` pairs, with a fixed fallback pair for
//! every line the table does not contain.

use vstd::prelude::*;

verus! {

/// Status line returned for a request line outside the table.
pub open spec fn fallback_status() -> Seq<char> {
    "HTTP/1.1 404 NOT FOUND"@
}

/// Template name returned for a request line outside the table.
pub open spec fn fallback_template() -> Seq<char> {
    "404.html"@
}

/// The mathematical content of a routing table: the entries, read left to
/// right, as a map from request line to `(status line, template name)`.
/// A later entry for the same key overrides an earlier one.
pub open spec fn map_of(entries: Seq<(String, (String, String))>) -> Map<
    Seq<char>,
    (Seq<char>, Seq<char>),
>
    decreases entries.len(),
{
    if entries.len() == 0 {
        Map::empty()
    } else {
        map_of(entries.drop_last()).insert(
            entries.last().0@,
            (entries.last().1.0@, entries.last().1.1@),
        )
    }
}

/// Total lookup: the mapped pair when the key is present, the fallback
/// pair otherwise. Defined for every string, with no error path.
pub open spec fn spec_lookup(
    table: Map<Seq<char>, (Seq<char>, Seq<char>)>,
    line: Seq<char>,
) -> (Seq<char>, Seq<char>) {
    if table.contains_key(line) {
        table[line]
    } else {
        (fallback_status(), fallback_template())
    }
}

/// Router totality: for every table and every request line the lookup is a
/// single well-defined pair, and it equals the fallback pair exactly when
/// the line is not in the table.
pub proof fn lemma_router_totality(table: Map<Seq<char>, (Seq<char>, Seq<char>)>, line: Seq<char>)
    ensures
        table.contains_key(line) ==> spec_lookup(table, line) == table[line],
        !table.contains_key(line) ==> spec_lookup(table, line) == (
            fallback_status(),
            fallback_template(),
        ),
{
}

/// The routing table. The entries are kept as a list of pairs; its view is
/// the map they denote.
pub struct RequestMapper {
    mapping: Vec<(String, (String, String))>,
}

impl View for RequestMapper {
    type V = Map<Seq<char>, (Seq<char>, Seq<char>)>;

    closed spec fn view(&self) -> Map<Seq<char>, (Seq<char>, Seq<char>)> {
        map_of(self.mapping@)
    }
}

impl RequestMapper {
    /// An empty table: every lookup falls back.
    pub fn new() -> (m: Self)
        ensures
            m@ == Map::<Seq<char>, (Seq<char>, Seq<char>)>::empty(),
    {
        RequestMapper { mapping: Vec::new() }
    }

    /// The table as shipped: the single literal entry
    /// `"GET / HTTP/1.1" -> ("HTTP/1.1 200 OK", "index.html")`.
    pub fn init() -> (m: Self)
        ensures
            m@ == map![
                "GET / HTTP/1.1"@ => ("HTTP/1.1 200 OK"@, "index.html"@)
            ],
    {
        let mut entries: Vec<(String, (String, String))> = Vec::new();
        entries.push(
            (
                "GET / HTTP/1.1".to_owned(),
                ("HTTP/1.1 200 OK".to_owned(), "index.html".to_owned()),
            ),
        );
        let m = RequestMapper { mapping: entries };
        proof {
            assert(m.mapping@.drop_last() =~= Seq::<(String, (String, String))>::empty());
            assert(map_of(m.mapping@.drop_last()) =~= Map::<Seq<char>, (Seq<char>, Seq<char>)>::empty());
            assert(m@ =~= map![
                "GET / HTTP/1.1"@ => ("HTTP/1.1 200 OK"@, "index.html"@)
            ]);
        }
        m
    }

    /// Total lookup of a request line: the mapped pair if present, the
    /// fallback pair otherwise.
    pub fn get(&self, key: &str) -> (r: (String, String))
        ensures
            r.0@ == spec_lookup(self@, key@).0,
            r.1@ == spec_lookup(self@, key@).1,
    {
        let key_string = key.to_owned();
        let mut i: usize = self.mapping.len();
        proof {
            assert(self.mapping@.take(i as int) =~= self.mapping@);
        }
        while i > 0
            invariant
                i <= self.mapping@.len(),
                key_string@ == key@,
                spec_lookup(map_of(self.mapping@), key@) == spec_lookup(
                    map_of(self.mapping@.take(i as int)),
                    key@,
                ),
            decreases i,
        {
            i = i - 1;
            proof {
                assert(self.mapping@.take(i + 1).drop_last() =~= self.mapping@.take(i as int));
                assert(self.mapping@.take(i + 1).last() == self.mapping@[i as int]);
            }
            if self.mapping[i].0 == key_string {
                return (self.mapping[i].1.0.clone(), self.mapping[i].1.1.clone());
            }
        }
        proof {
            assert(self.mapping@.take(0) =~= Seq::<(String, (String, String))>::empty());
        }
        ("HTTP/1.1 404 NOT FOUND".to_owned(), "404.html".to_owned())
    }

    /// The connection handler's first decision: a missing request line
    /// (peer closed, or the bytes were not text) aborts silently with no
    /// response; a present one is routed.
    pub fn handle_request_line(&self, line: &Option<String>) -> (r: Option<(String, String)>)
        ensures
            match line {
                Option::None => r is None,
                Option::Some(l) => match r {
                    Option::None => false,
                    Option::Some(p) => p.0@ == spec_lookup(self@, l@).0 && p.1@ == spec_lookup(
                        self@,
                        l@,
                    ).1,
                },
            },
    {
        match line {
            Option::None => Option::None,
            Option::Some(l) => Option::Some(self.get(l.as_str())),
        }
    }
}

} // verus!
