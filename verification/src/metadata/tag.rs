//! A named piece of metadata, as it is shown to the user.
use crate::text;
use vstd::prelude::*;

verus! {

/// One line of the metadata list.
#[derive(Debug, PartialEq, Eq)]
pub struct Tag {
    pub name: String,
    pub value: String,
}

/// What a [`Tag`] says.
#[verifier::ext_equal]
pub struct TagText {
    pub name: Seq<char>,
    pub value: Seq<char>,
}

impl View for Tag {
    type V = TagText;

    open spec fn view(&self) -> TagText {
        TagText { name: self.name@, value: self.value@ }
    }
}

/// What a list of tags says.
pub open spec fn texts(tags: Seq<Tag>) -> Seq<TagText> {
    tags.map_values(|t: Tag| t@)
}

pub open spec fn said(name: Seq<char>, value: Seq<char>) -> TagText {
    TagText { name, value }
}

/// Whether an outcome is the one wanted, tags or error text.
pub open spec fn same(
    r: Result<Vec<Tag>, String>,
    want: Result<Seq<TagText>, Seq<char>>,
) -> bool {
    match (r, want) {
        (Ok(tags), Ok(w)) => texts(tags@) == w,
        (Err(e), Err(m)) => e@ == m,
        _ => false,
    }
}

/// How a block is shown of which only the size matters.
pub open spec fn presence(len: nat) -> Seq<char> {
    "присутствует, "@ + text::decimal(len) + " Б"@
}

pub fn presence_text(len: usize) -> (r: String)
    ensures
        r@ == presence(len as nat),
{
    let mut out = "присутствует, ".to_owned();
    let number = text::decimal_text(len as u64);
    out.append(number.as_str());
    out.append(" Б");
    out
}

impl Tag {
    pub fn new(name: String, value: String) -> (r: Tag)
        ensures
            r@ == said(name@, value@),
    {
        Tag { name, value }
    }
}

/// Appends a tag made of two texts.
pub fn push_tag(tags: &mut Vec<Tag>, name: &str, value: String)
    ensures
        texts(final(tags)@) == texts(old(tags)@).push(said(name@, value@)),
{
    tags.push(Tag::new(name.to_owned(), value));
    assert(texts(tags@) =~= texts(old(tags)@).push(said(name@, value@)));
}

/// Appends the tags of `more`.
pub fn append_tags(tags: &mut Vec<Tag>, more: Vec<Tag>)
    ensures
        texts(final(tags)@) == texts(old(tags)@) + texts(more@),
{
    let mut rest = more;
    tags.append(&mut rest);
    assert(texts(tags@) =~= texts(old(tags)@) + texts(more@));
}

/// What a list of tags says is what each of them holds, in their order.
pub proof fn list_says_what_its_tags_hold(list: Seq<Tag>)
    ensures
        texts(list).len() == list.len(),
        forall|i: int|
            0 <= i < list.len() ==> texts(list)[i].name == (#[trigger] list[i]).name@ && texts(
                list,
            )[i].value == list[i].value@,
{
}

/// An outcome is the one wanted only where it is tags that say the same, or the same error.
pub proof fn outcome_is_the_one_wanted(
    r: Result<Vec<Tag>, String>,
    want: Result<Seq<TagText>, Seq<char>>,
)
    ensures
        same(r, want) ==> (r is Ok <==> want is Ok),
        same(r, want) && r is Ok ==> texts(r->Ok_0@) == want->Ok_0,
        same(r, want) && r is Err ==> r->Err_0@ == want->Err_0,
{
}

/// A block of which only the size matters is told to be there, with its size in bytes.
pub proof fn presence_tells_the_size(len: nat, name: Seq<char>, value: Seq<char>)
    ensures
        presence(len) == "присутствует, "@ + text::decimal(len) + " Б"@,
        said(name, value).name == name && said(name, value).value == value,
{
}

} // verus!
