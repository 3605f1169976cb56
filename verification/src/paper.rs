//! Bibliographic records as the academic sources return them.

use vstd::prelude::*;
use crate::json::{get, members_get, Json, JsonV};
use crate::text::{chars_of, rfind, rfind_exec, string_of_range, to_string};

verus! {

/// An author, by display name.
#[derive(Debug, Clone)]
pub struct Author {
    pub name: String,
}

/// A paper's metadata, as one of the academic sources reports it.
#[derive(Debug, Clone)]
pub struct Paper {
    pub title: String,
    pub authors: Vec<Author>,
    pub doi: Option<String>,
    pub abstract_text: Option<String>,
    pub date: Option<String>,
    pub publication: Option<String>,
    pub volume: Option<String>,
    pub pages: Option<String>,
    pub url: Option<String>,
    pub pdf_url: Option<String>,
    pub arxiv_id: Option<String>,
    pub source: Option<String>,
    pub cited_by_count: Option<u64>,
}

/// The characters of an optional string.
pub open spec fn opt_view(o: Option<String>) -> Option<Seq<char>> {
    match o {
        Some(s) => Some(s@),
        None => None,
    }
}

/// The names of the authors.
pub open spec fn author_names(authors: Seq<Author>) -> Seq<Seq<char>> {
    authors.map_values(|a: Author| a.name@)
}

/// The first and last name of an author: the last name is what follows the
/// last space, the first name what precedes it; a name without a space is all
/// last name.
pub open spec fn name_parts(name: Seq<char>) -> (Seq<char>, Seq<char>) {
    match rfind(name, seq![' ']) {
        Some(i) => (name.take(i), name.skip(i + 1)),
        None => (Seq::empty(), name),
    }
}

/// The Zotero creator record of an author.
pub open spec fn creator_json(name: Seq<char>) -> JsonV {
    JsonV::Object(
        seq![
            ("creatorType"@, JsonV::Str("author"@)),
            ("firstName"@, JsonV::Str(name_parts(name).0)),
            ("lastName"@, JsonV::Str(name_parts(name).1)),
        ],
    )
}

/// A member for an optional string field, when it is present.
pub open spec fn opt_member(key: Seq<char>, v: Option<String>) -> Seq<(Seq<char>, JsonV)> {
    match v {
        Some(s) => seq![(key, JsonV::Str(s@))],
        None => seq![],
    }
}

/// The Zotero JSON item of a paper: a journal article with its title,
/// creators and the optional fields that are present.
pub open spec fn zotero_item(p: Paper) -> JsonV {
    JsonV::Object(
        seq![
            ("itemType"@, JsonV::Str("journalArticle"@)),
            ("title"@, JsonV::Str(p.title@)),
            ("creators"@, JsonV::Array(p.authors@.map_values(|a: Author| creator_json(a.name@)))),
        ] + opt_member("DOI"@, p.doi) + opt_member("abstractNote"@, p.abstract_text) + opt_member(
            "date"@,
            p.date,
        ) + opt_member("publicationTitle"@, p.publication) + opt_member("volume"@, p.volume)
            + opt_member("pages"@, p.pages) + opt_member("url"@, p.url),
    )
}

/// A member looked up in two runs of members: the first run's, else the
/// second's.
proof fn lemma_members_get_concat(a: Seq<(Seq<char>, JsonV)>, b: Seq<(Seq<char>, JsonV)>, k: Seq<char>)
    ensures
        members_get(a + b, k) == match members_get(a, k) {
            Some(v) => Some(v),
            None => members_get(b, k),
        },
    decreases a.len(),
{
    if a.len() > 0 {
        lemma_members_get_concat(a.drop_first(), b, k);
        assert((a + b).drop_first() =~= a.drop_first() + b);
    } else {
        assert(a + b =~= b);
    }
}

proof fn lemma_members_get_absent(m: Seq<(Seq<char>, JsonV)>, k: Seq<char>)
    requires
        forall|i: int| 0 <= i < m.len() ==> (#[trigger] m[i]).0 != k,
    ensures
        members_get(m, k) is None,
    decreases m.len(),
{
    if m.len() > 0 {
        assert forall|i: int| 0 <= i < m.drop_first().len() implies (#[trigger] m.drop_first()[i]).0 != k by {
            assert(m.drop_first()[i] == m[i + 1]);
        }
        lemma_members_get_absent(m.drop_first(), k);
    }
}

proof fn lemma_opt_member_get(key: Seq<char>, v: Option<String>, k: Seq<char>)
    ensures
        members_get(opt_member(key, v), k) == if k == key {
            str_json(v)
        } else {
            None
        },
{
    let m = opt_member(key, v);
    match v {
        Some(x) => {
            assert(m.len() == 1 && m[0] == (key, JsonV::Str(x@)));
            assert(m.drop_first() =~= Seq::<(Seq<char>, JsonV)>::empty());
            assert(members_get(m.drop_first(), k) is None);
        },
        None => {
            assert(m.len() == 0);
        },
    }
}

/// A string member's value, when the string is there.
pub open spec fn str_json(o: Option<String>) -> Option<JsonV> {
    match o {
        Some(s) => Some(JsonV::Str(s@)),
        None => None,
    }
}

/// Law: the Zotero item of a paper is a journal article with the paper's
/// title, and each optional field of the paper that is present (DOI,
/// abstract, date, publication, volume, pages, URL) is the member `DOI`,
/// `abstractNote`, `date`, `publicationTitle`, `volume`, `pages`, `url`
/// holding that value; a field that is absent has no member.
pub proof fn law_zotero_item_keeps_fields(p: Paper)
    ensures
        get(zotero_item(p), "itemType"@) == Some(JsonV::Str("journalArticle"@)),
        get(zotero_item(p), "title"@) == Some(JsonV::Str(p.title@)),
        get(zotero_item(p), "DOI"@) == str_json(p.doi),
        get(zotero_item(p), "abstractNote"@) == str_json(p.abstract_text),
        get(zotero_item(p), "date"@) == str_json(p.date),
        get(zotero_item(p), "publicationTitle"@) == str_json(p.publication),
        get(zotero_item(p), "volume"@) == str_json(p.volume),
        get(zotero_item(p), "pages"@) == str_json(p.pages),
        get(zotero_item(p), "url"@) == str_json(p.url),
{
    reveal_strlit("itemType");
    reveal_strlit("journalArticle");
    reveal_strlit("title");
    reveal_strlit("creators");
    reveal_strlit("DOI");
    reveal_strlit("abstractNote");
    reveal_strlit("date");
    reveal_strlit("publicationTitle");
    reveal_strlit("volume");
    reveal_strlit("pages");
    reveal_strlit("url");
    let base: Seq<(Seq<char>, JsonV)> = seq![
        ("itemType"@, JsonV::Str("journalArticle"@)),
        ("title"@, JsonV::Str(p.title@)),
        ("creators"@, JsonV::Array(p.authors@.map_values(|a: Author| creator_json(a.name@)))),
    ];
    let o1 = opt_member("DOI"@, p.doi);
    let o2 = opt_member("abstractNote"@, p.abstract_text);
    let o3 = opt_member("date"@, p.date);
    let o4 = opt_member("publicationTitle"@, p.publication);
    let o5 = opt_member("volume"@, p.volume);
    let o6 = opt_member("pages"@, p.pages);
    let o7 = opt_member("url"@, p.url);
    let x1 = base + o1;
    let x2 = x1 + o2;
    let x3 = x2 + o3;
    let x4 = x3 + o4;
    let x5 = x4 + o5;
    let x6 = x5 + o6;
    let x7 = x6 + o7;
    assert(zotero_item(p)->Object_0 == x7);
    let keys = seq![
        "itemType"@,
        "title"@,
        "DOI"@,
        "abstractNote"@,
        "date"@,
        "publicationTitle"@,
        "volume"@,
        "pages"@,
        "url"@,
    ];
    assert forall|i: int| 0 <= i < keys.len() implies {
        let k = #[trigger] keys[i];
        &&& members_get(x7, k) == match members_get(x6, k) {
            Some(v) => Some(v),
            None => members_get(o7, k),
        }
        &&& members_get(x6, k) == match members_get(x5, k) {
            Some(v) => Some(v),
            None => members_get(o6, k),
        }
        &&& members_get(x5, k) == match members_get(x4, k) {
            Some(v) => Some(v),
            None => members_get(o5, k),
        }
        &&& members_get(x4, k) == match members_get(x3, k) {
            Some(v) => Some(v),
            None => members_get(o4, k),
        }
        &&& members_get(x3, k) == match members_get(x2, k) {
            Some(v) => Some(v),
            None => members_get(o3, k),
        }
        &&& members_get(x2, k) == match members_get(x1, k) {
            Some(v) => Some(v),
            None => members_get(o2, k),
        }
        &&& members_get(x1, k) == match members_get(base, k) {
            Some(v) => Some(v),
            None => members_get(o1, k),
        }
    } by {
        let k = keys[i];
        lemma_opt_member_get("DOI"@, p.doi, k);
        lemma_opt_member_get("abstractNote"@, p.abstract_text, k);
        lemma_opt_member_get("date"@, p.date, k);
        lemma_opt_member_get("publicationTitle"@, p.publication, k);
        lemma_opt_member_get("volume"@, p.volume, k);
        lemma_opt_member_get("pages"@, p.pages, k);
        lemma_opt_member_get("url"@, p.url, k);
        lemma_members_get_concat(x6, o7, k);
        lemma_members_get_concat(x5, o6, k);
        lemma_members_get_concat(x4, o5, k);
        lemma_members_get_concat(x3, o4, k);
        lemma_members_get_concat(x2, o3, k);
        lemma_members_get_concat(x1, o2, k);
        lemma_members_get_concat(base, o1, k);
    }
    assert("DOI"@ != "url"@) by {
        assert("DOI"@[0] != "url"@[0]);
    }
    assert("title"@ != "pages"@) by {
        assert("title"@[0] != "pages"@[0]);
    }
    assert forall|i: int, j: int| 0 <= i < keys.len() && 0 <= j < keys.len() && i != j implies #[trigger] keys[i]
        != #[trigger] keys[j] by {
        if keys[i].len() == keys[j].len() {
            assert((i == 2 && j == 8) || (i == 8 && j == 2) || (i == 1 && j == 7) || (i == 7 && j == 1));
        }
    }
    assert forall|i: int| 2 <= i < keys.len() implies members_get(base, #[trigger] keys[i]) is None by {
        assert forall|j: int| 0 <= j < base.len() implies (#[trigger] base[j]).0 != keys[i] by {
            assert(base[j].0.len() != keys[i].len() || (j == 1 && i == 7 && base[j].0[0] != keys[i][0]));
        }
        lemma_members_get_absent(base, keys[i]);
    }
    reveal_with_fuel(members_get, 2);
    assert(keys[0] == "itemType"@);
    assert(keys[1] == "title"@);
    assert(keys[2] == "DOI"@);
    assert(keys[3] == "abstractNote"@);
    assert(keys[4] == "date"@);
    assert(keys[5] == "publicationTitle"@);
    assert(keys[6] == "volume"@);
    assert(keys[7] == "pages"@);
    assert(keys[8] == "url"@);
}

fn creator(name: &str) -> (r: Json)
    ensures
        r@ == creator_json(name@),
{
    let v = chars_of(name);
    let mut sp: Vec<char> = Vec::new();
    sp.push(' ');
    assert(sp@ =~= seq![' ']);
    let (first, last) = match rfind_exec(&v, &sp) {
        Some(i) => {
            assert(v@.take(i as int) =~= v@.subrange(0, i as int));
            assert(v@.skip(i + 1) =~= v@.subrange(i + 1, v@.len() as int));
            (string_of_range(&v, 0, i), string_of_range(&v, i + 1, v.len()))
        },
        None => (String::new(), to_string(name)),
    };
    assert(first@ == name_parts(name@).0 && last@ == name_parts(name@).1);
    let mut members: Vec<(String, Json)> = Vec::new();
    members.push((to_string("creatorType"), Json::str("author")));
    members.push((to_string("firstName"), Json::str(first.as_str())));
    members.push((to_string("lastName"), Json::str(last.as_str())));
    let r = Json::Object(members);
    proof {
        let m = r@->Object_0;
        let c = creator_json(name@)->Object_0;
        assert(m.len() == 3);
        assert(m[0] == c[0]);
        assert(m[1] == c[1]);
        assert(m[2] == c[2]);
        assert(m =~= c);
    }
    r
}

fn push_opt(members: &mut Vec<(String, Json)>, key: &str, v: &Option<String>)
    ensures
        final(members)@.map_values(|m: (String, Json)| (m.0@, m.1@)) == old(members)@.map_values(
            |m: (String, Json)| (m.0@, m.1@),
        ) + opt_member(key@, *v),
{
    let ghost before = members@.map_values(|m: (String, Json)| (m.0@, m.1@));
    match v {
        Some(s) => {
            members.push((to_string(key), Json::str(s.as_str())));
            assert(members@.map_values(|m: (String, Json)| (m.0@, m.1@)) =~= before + opt_member(
                key@,
                *v,
            ));
        },
        None => {
            assert(members@.map_values(|m: (String, Json)| (m.0@, m.1@)) =~= before + opt_member(
                key@,
                *v,
            ));
        },
    }
}

impl Paper {
    /// Converts to the Zotero JSON item format for import. Each author's
    /// name is split at its last space into first and last name.
    pub fn to_zotero_json(&self) -> (r: Json)
        ensures
            r@ == zotero_item(*self),
    {
        let mut creators: Vec<Json> = Vec::new();
        let mut i: usize = 0;
        while i < self.authors.len()
            invariant
                i <= self.authors@.len(),
                creators@.map_values(|x: Json| x@) == self.authors@.take(i as int).map_values(
                    |a: Author| creator_json(a.name@),
                ),
            decreases self.authors.len() - i,
        {
            let c = creator(self.authors[i].name.as_str());
            let ghost before = creators@.map_values(|x: Json| x@);
            creators.push(c);
            proof {
                assert(creators@.map_values(|x: Json| x@) =~= before.push(c@));
                assert(self.authors@.take(i + 1).map_values(|a: Author| creator_json(a.name@))
                    =~= self.authors@.take(i as int).map_values(|a: Author| creator_json(a.name@)).push(
                    creator_json(self.authors@[i as int].name@),
                ));
            }
            i += 1;
        }
        assert(self.authors@.take(self.authors@.len() as int) =~= self.authors@);
        let mut members: Vec<(String, Json)> = Vec::new();
        members.push((to_string("itemType"), Json::str("journalArticle")));
        members.push((to_string("title"), Json::str(self.title.as_str())));
        members.push((to_string("creators"), Json::arr(creators)));
        proof {
            assert(members@.map_values(|m: (String, Json)| (m.0@, m.1@)) =~= seq![
                ("itemType"@, JsonV::Str("journalArticle"@)),
                ("title"@, JsonV::Str(self.title@)),
                ("creators"@, JsonV::Array(self.authors@.map_values(|a: Author| creator_json(a.name@)))),
            ]);
        }
        push_opt(&mut members, "DOI", &self.doi);
        push_opt(&mut members, "abstractNote", &self.abstract_text);
        push_opt(&mut members, "date", &self.date);
        push_opt(&mut members, "publicationTitle", &self.publication);
        push_opt(&mut members, "volume", &self.volume);
        push_opt(&mut members, "pages", &self.pages);
        push_opt(&mut members, "url", &self.url);
        let r = Json::Object(members);
        assert((r@->Object_0) =~= members@.map_values(|m: (String, Json)| (m.0@, m.1@)));
        r
    }
}

/// Splitting an author's name loses nothing: first name, a space and last
/// name give the name back; a name without a space is all last name.
pub proof fn law_name_parts_rejoin(name: Seq<char>)
    ensures
        rfind(name, seq![' ']) is Some ==> name_parts(name).0 + seq![' '] + name_parts(name).1 == name,
        rfind(name, seq![' ']) is None ==> name_parts(name).1 == name && name_parts(name).0.len() == 0,
{
    crate::text::lemma_rfind_upto_spec(name, seq![' '], name.len() - 1);
    if let Some(i) = rfind(name, seq![' ']) {
        assert(name.subrange(i, i + 1) == seq![' ']);
        assert(name.subrange(i, i + 1)[0] == name[i]);
        assert(name[i] == ' ');
        assert(name.take(i) + seq![' '] + name.skip(i + 1) =~= name);
    }
}

} // verus!
