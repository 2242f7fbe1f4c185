//! The static keyword dictionary and tag extraction.
//!
//! Each dictionary entry pairs a tag with the substrings that mark it; a
//! description gets every tag one of whose substrings occurs in it, in
//! dictionary order, at most once per entry.

use vstd::prelude::*;

verus! {

use crate::find::{contains_sub, occurs};
use crate::jobs::JobTag;
use vstd::string::StringSliceAdditionalSpecFns;
use vstd::utf8::encode_utf8;

/// A dictionary as its text: each entry a tag and its marker substrings.
pub open spec fn dict_view(d: Seq<(String, Vec<String>)>) -> Seq<(Seq<char>, Seq<Seq<char>>)> {
    d.map_values(|e: (String, Vec<String>)| (e.0@, e.1@.map_values(|m: String| m@)))
}

/// Some marker of the entry occurs in the description bytes.
pub open spec fn entry_matches(desc: Seq<u8>, matchers: Seq<Seq<char>>) -> bool {
    exists|j: int| 0 <= j < matchers.len() && occurs(desc, encode_utf8(#[trigger] matchers[j]))
}

/// The tags a description earns: each matching entry's tag, in dictionary
/// order.
pub open spec fn spec_tags(desc: Seq<u8>, dict: Seq<(Seq<char>, Seq<Seq<char>>)>) -> Seq<Seq<char>>
    decreases dict.len(),
{
    if dict.len() == 0 {
        Seq::empty()
    } else {
        let rest = spec_tags(desc, dict.drop_first());
        if entry_matches(desc, dict[0].1) {
            seq![dict[0].0] + rest
        } else {
            rest
        }
    }
}

/// Whether some marker of one entry occurs in the description bytes.
fn entry_has_match(desc: &[u8], matchers: &Vec<String>) -> (r: bool)
    ensures
        r == entry_matches(desc@, matchers@.map_values(|m: String| m@)),
{
    let ghost mview = matchers@.map_values(|m: String| m@);
    let mut j: usize = 0;
    while j < matchers.len()
        invariant
            j <= matchers@.len(),
            mview == matchers@.map_values(|m: String| m@),
            forall|k: int| 0 <= k < j ==> !occurs(desc@, encode_utf8(#[trigger] mview[k])),
        decreases matchers@.len() - j,
    {
        let needle = matchers[j].as_str().as_bytes();
        proof {
            assert(needle@ == encode_utf8(mview[j as int]));
        }
        if contains_sub(desc, needle) {
            return true;
        }
        j = j + 1;
    }
    false
}

/// Tags a description against a dictionary: one tag per entry with a marker
/// occurring in the description, in dictionary order.
pub fn extract_jobs_tags(description: &str, dict: &Vec<(String, Vec<String>)>) -> (r: Vec<JobTag>)
    ensures
        r@.map_values(|t: JobTag| t.name@) == spec_tags(description.spec_bytes(), dict_view(dict@)),
{
    let desc = description.as_bytes();
    let ghost dv = dict_view(dict@);
    let mut out: Vec<JobTag> = Vec::new();
    let mut i: usize = 0;
    proof {
        assert(dv.skip(0) =~= dv);
        assert(out@.map_values(|t: JobTag| t.name@) + spec_tags(desc@, dv) =~= spec_tags(
            desc@,
            dv,
        ));
    }
    while i < dict.len()
        invariant
            i <= dict@.len(),
            dv == dict_view(dict@),
            desc@ == description.spec_bytes(),
            out@.map_values(|t: JobTag| t.name@) + spec_tags(desc@, dv.skip(i as int)) == spec_tags(
                desc@,
                dv,
            ),
        decreases dict@.len() - i,
    {
        proof {
            assert(dv.skip(i as int)[0] == dv[i as int]);
            assert(dv.skip(i as int).drop_first() =~= dv.skip(i + 1));
            assert(dv[i as int].1 == dict@[i as int].1@.map_values(|m: String| m@));
        }
        let entry_tag = &dict[i].0;
        let entry_matchers = &dict[i].1;
        if entry_has_match(desc, entry_matchers) {
            let tag = JobTag { name: entry_tag.clone() };
            proof {
                assert(tag.name@ == dv[i as int].0);
                assert(out@.push(tag).map_values(|t: JobTag| t.name@) =~= out@.map_values(
                    |t: JobTag| t.name@,
                ).push(tag.name@));
                assert(out@.map_values(|t: JobTag| t.name@).push(dv[i as int].0) + spec_tags(
                    desc@,
                    dv.skip(i + 1),
                ) =~= out@.map_values(|t: JobTag| t.name@) + (seq![dv[i as int].0] + spec_tags(
                    desc@,
                    dv.skip(i + 1),
                )));
            }
            out.push(tag);
        }
        i = i + 1;
    }
    proof {
        assert(dv.skip(i as int) =~= Seq::empty());
        assert(out@.map_values(|t: JobTag| t.name@) + spec_tags(desc@, dv.skip(i as int)) =~= out@
            .map_values(|t: JobTag| t.name@));
    }
    out
}

/// The process-wide tag dictionary: programming languages, stacks and roles,
/// each with the substrings that mark it.
pub fn job_tags_dictionary() -> (r: Vec<(String, Vec<String>)>)
    ensures
        r@.len() == 23,
{
    let dict: Vec<(String, Vec<String>)> = vec![
        (
            "C#".to_owned(),
            vec!["c#".to_owned(), "c-sharp".to_owned(), "c sharp".to_owned(), "csharp".to_owned()],
        ),
        ("Python".to_owned(), vec!["python".to_owned()]),
        ("Rust".to_owned(), vec!["rust".to_owned()]),
        ("Go".to_owned(), vec!["go".to_owned(), "goLang".to_owned(), "go lang".to_owned()]),
        (
            "Javscript/Typescript".to_owned(),
            vec![
                "javascript".to_owned(),
                "js".to_owned(),
                "ts".to_owned(),
                "typescript".to_owned(),
            ],
        ),
        ("Pascal".to_owned(), vec!["pascal".to_owned()]),
        ("Elixir".to_owned(), vec!["elixir".to_owned()]),
        ("Gleam".to_owned(), vec!["gleam".to_owned()]),
        ("html/css".to_owned(), vec!["html".to_owned(), "css".to_owned()]),
        ("C".to_owned(), vec!["c".to_owned()]),
        (
            "C++".to_owned(),
            vec![
                "c++".to_owned(),
                "cplusplus".to_owned(),
                "c plus plus".to_owned(),
                "c plusplus".to_owned(),
            ],
        ),
        ("Java".to_owned(), vec!["java".to_owned()]),
        ("Flutter/dart".to_owned(), vec!["flutter".to_owned(), "dart".to_owned()]),
        ("Haskell".to_owned(), vec!["haskell".to_owned()]),
        (
            "Sql".to_owned(),
            vec![
                "sql".to_owned(),
                "mssql".to_owned(),
                "microsoft-sql".to_owned(),
                "microsoft sql".to_owned(),
                "sql server".to_owned(),
                "postgresql".to_owned(),
                "postgre sql".to_owned(),
            ],
        ),
        ("Docker".to_owned(), vec!["kubernetes".to_owned(), "docker".to_owned()]),
        ("Frontend".to_owned(), vec!["frontend".to_owned(), "front end".to_owned()]),
        ("Backend".to_owned(), vec!["backend".to_owned(), "back end".to_owned()]),
        (
            "AI".to_owned(),
            vec![
                "machine learning".to_owned(),
                "ai".to_owned(),
                "machineLearning".to_owned(),
                "ml".to_owned(),
                "llm".to_owned(),
            ],
        ),
        ("Angular".to_owned(), vec!["angularJs".to_owned(), "angular".to_owned()]),
        ("React".to_owned(), vec!["reactjs".to_owned(), "react js".to_owned(), "react".to_owned()]),
        (
            ".Net".to_owned(),
            vec![
                ".net".to_owned(),
                "dot net".to_owned(),
                "asp.net".to_owned(),
                "dot-net".to_owned(),
            ],
        ),
        (
            "Spring".to_owned(),
            vec!["Javaspring".to_owned(), "spring".to_owned(), "spring-framework".to_owned()],
        ),
    ];
    dict
}

} // verus!
