use convert_case::{Case, Casing};
use vstd::prelude::*;

use crate::database::models::device::Device;
use crate::database::models::file::File;
use crate::database::models::file_tag::FileTag;
use crate::database::models::tag::Tag;

verus! {

/// What `Casing::to_case(Case::Snake)` (convert_case) makes of `name`.
pub uninterp spec fn snake_case(name: Seq<char>) -> Seq<char>;

/// Calls `Casing::to_case` with `Case::Snake` (convert_case). Claimed: the result is a
/// function of `name`, named `snake_case`; nothing more is stated.
#[verifier::external_body]
pub(crate) fn table_name_for(name: &str) -> (table: String)
    ensures
        table@ == snake_case(name@),
{
    name.to_case(Case::Snake)
}

/// The table that holds a model: its type's name in snake case.
pub trait TableName {
    fn table_name() -> String;
}

impl TableName for Device {
    fn table_name() -> (table: String)
        ensures
            table@ == snake_case("Device"@),
    {
        table_name_for("Device")
    }
}

impl TableName for File {
    fn table_name() -> (table: String)
        ensures
            table@ == snake_case("File"@),
    {
        table_name_for("File")
    }
}

impl TableName for FileTag {
    fn table_name() -> (table: String)
        ensures
            table@ == snake_case("FileTag"@),
    {
        table_name_for("FileTag")
    }
}

impl TableName for Tag {
    fn table_name() -> (table: String)
        ensures
            table@ == snake_case("Tag"@),
    {
        table_name_for("Tag")
    }
}

/// `pre + f + post` for each of `fields`, separated by commas.
pub open spec fn wrapped_list(fields: Seq<Seq<char>>, pre: Seq<char>, post: Seq<char>) -> Seq<char>
    decreases fields.len(),
{
    if fields.len() == 0 {
        Seq::empty()
    } else if fields.len() == 1 {
        pre + fields[0] + post
    } else {
        wrapped_list(fields.drop_last(), pre, post) + ","@ + pre + fields.last() + post
    }
}

/// How many times `c` occurs in `s`.
pub open spec fn count_char(s: Seq<char>, c: char) -> nat
    decreases s.len(),
{
    if s.len() == 0 {
        0
    } else {
        count_char(s.drop_last(), c) + if s.last() == c {
            1nat
        } else {
            0nat
        }
    }
}

proof fn lemma_count_char_add(a: Seq<char>, b: Seq<char>, c: char)
    ensures
        count_char(a + b, c) == count_char(a, c) + count_char(b, c),
    decreases b.len(),
{
    if b.len() == 0 {
        assert(a + b =~= a);
    } else {
        assert((a + b).drop_last() =~= a + b.drop_last());
        lemma_count_char_add(a, b.drop_last(), c);
    }
}

/// The fields of a list are separated by commas and by nothing else: where neither the fields
/// nor what wraps them hold a comma, a list of `n` fields holds `n - 1` commas.
pub proof fn lemma_wrapped_list_commas(fields: Seq<Seq<char>>, pre: Seq<char>, post: Seq<char>)
    requires
        fields.len() >= 1,
        count_char(pre, ',') == 0,
        count_char(post, ',') == 0,
        forall|i: int| 0 <= i < fields.len() ==> count_char(#[trigger] fields[i], ',') == 0,
    ensures
        count_char(wrapped_list(fields, pre, post), ',') == fields.len() - 1,
    decreases fields.len(),
{
    if fields.len() == 1 {
        lemma_count_char_add(pre, fields[0], ',');
        lemma_count_char_add(pre + fields[0], post, ',');
    } else {
        let init = fields.drop_last();
        lemma_wrapped_list_commas(init, pre, post);
        reveal_strlit(",");
        reveal_with_fuel(count_char, 2);
        assert(count_char(","@, ',') == 1) by {
            assert(","@.drop_last() =~= Seq::<char>::empty());
        }
        let w = wrapped_list(init, pre, post);
        lemma_count_char_add(w, ","@, ',');
        lemma_count_char_add(w + ","@, pre, ',');
        lemma_count_char_add(w + ","@ + pre, fields.last(), ',');
        lemma_count_char_add(w + ","@ + pre + fields.last(), post, ',');
    }
}

/// The fields' names.
pub open spec fn field_names(fields: Seq<String>) -> Seq<Seq<char>> {
    fields.map_values(|f: String| f@)
}

/// `pre + f + post` for each of `fields`, separated by commas.
fn wrap_fields(fields: &Vec<String>, pre: &str, post: &str) -> (s: String)
    ensures
        s@ == wrapped_list(field_names(fields@), pre@, post@),
{
    let mut s = String::new();
    let mut i: usize = 0;
    while i < fields.len()
        invariant
            i <= fields@.len(),
            s@ == wrapped_list(field_names(fields@.take(i as int)), pre@, post@),
        decreases fields@.len() - i,
    {
        if i > 0 {
            s.append(",");
        }
        s.append(pre);
        s.append(fields[i].as_str());
        s.append(post);
        proof {
            let t = field_names(fields@.take(i + 1));
            assert(t.drop_last() =~= field_names(fields@.take(i as int)));
            assert(t.last() == fields@[i as int]@);
            if i == 0 {
                assert(t.len() == 1);
            }
        }
        i = i + 1;
    }
    proof {
        assert(fields@.take(fields@.len() as int) =~= fields@);
    }
    s
}

/// The statement that inserts a row of `fields` into `table`, each field bound to the
/// parameter of its name, returning the row.
pub fn insert_statement(table: &str, fields: &Vec<String>) -> (query: String)
    ensures
        query@ == "INSERT INTO `"@ + table@ + "` ("@ + wrapped_list(
            field_names(fields@),
            "`"@,
            "`"@,
        ) + ") VALUES ("@ + wrapped_list(field_names(fields@), ":"@, ""@) + ") RETURNING *;"@,
{
    let query_args = wrap_fields(fields, "`", "`");
    let query_values = wrap_fields(fields, ":", "");
    let mut query = String::new();
    query.append("INSERT INTO `");
    query.append(table);
    query.append("` (");
    query.append(query_args.as_str());
    query.append(") VALUES (");
    query.append(query_values.as_str());
    query.append(") RETURNING *;");
    query
}

/// The pattern a search binds to its query: the text anywhere in the searched column.
pub fn search_pattern(query: &str) -> (pattern: String)
    ensures
        pattern@ == "%"@ + query@ + "%"@,
{
    let mut pattern = "%".to_string();
    pattern.append(query);
    pattern.append("%");
    pattern
}

/// The statement that reads every row of `table`.
pub fn fetch_all_statement(table: &str) -> (query: String)
    ensures
        query@ == "SELECT * FROM `"@ + table@ + "`;"@,
{
    let mut query = String::new();
    query.append("SELECT * FROM `");
    query.append(table);
    query.append("`;");
    query
}

/// The statement that counts the rows of `table`.
pub fn count_statement(table: &str) -> (query: String)
    ensures
        query@ == "SELECT COUNT(*) FROM `"@ + table@ + "`"@,
{
    let mut query = String::new();
    query.append("SELECT COUNT(*) FROM `");
    query.append(table);
    query.append("`");
    query
}

} // verus!
