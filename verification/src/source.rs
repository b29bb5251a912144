//! Where a number stands in the reply of a service, and how it is read.

use crate::decimal::{parsed, Decimal, Quantity};
use crate::errors::{AppError, Failure};
use crate::json::Json;
use vstd::prelude::*;
use vstd::string::*;

verus! {

/// A service that is asked for one number.
#[derive(Debug)]
pub struct Source {
    /// The address that is asked.
    pub url: String,
    /// The names of the fields that lead to the number in the reply, from
    /// the outside in.
    pub path: Vec<String>,
    /// Whether the last field holds a list whose first item is the number,
    /// written as a string; otherwise it holds the number itself.
    pub listed: bool,
}

/// A source with its texts as sequences of characters.
pub struct SourceView {
    pub url: Seq<char>,
    pub path: Seq<Seq<char>>,
    pub listed: bool,
}

/// The texts as sequences of characters.
pub open spec fn texts(v: Seq<String>) -> Seq<Seq<char>> {
    Seq::new(v.len(), |i: int| v[i]@)
}

impl View for Source {
    type V = SourceView;

    open spec fn view(&self) -> SourceView {
        SourceView { url: self.url@, path: texts(self.path@), listed: self.listed }
    }
}

/// The names of a path with a dot between each two.
pub open spec fn joined(path: Seq<Seq<char>>) -> Seq<char>
    decreases path.len(),
{
    if path.len() == 0 {
        Seq::empty()
    } else if path.len() == 1 {
        path[0]
    } else {
        joined(path.drop_last()) + seq!['.'] + path.last()
    }
}

/// The value that the names of `path` from number `from` on lead to, or the
/// path up to the first field that is not there.
pub open spec fn follow(json: Json, path: Seq<Seq<char>>, from: int) -> Result<Json, Seq<char>>
    decreases path.len() - from,
{
    if from < 0 || from >= path.len() {
        Ok(json)
    } else {
        match json.field(path[from]) {
            None => Err(joined(path.take(from + 1))),
            Some(next) => follow(next, path, from + 1),
        }
    }
}

/// The number that a numeral names, or the failure that names the field
/// which holds no numeral.
pub open spec fn numeral_at(numeral: Option<Seq<char>>, trail: Seq<char>) -> Result<
    Quantity,
    Failure,
> {
    match numeral {
        None => Err(Failure::NonNumericField(trail)),
        Some(text) => match parsed(text) {
            None => Err(Failure::NonNumericField(trail)),
            Some(q) => Ok(q),
        },
    }
}

/// The number that a reply holds for a source. A field of the path that is
/// not there, or a list without a first item, is a missing field; a value
/// that is not a number where one is looked for, or not a string that holds
/// a numeral in a list, is a field that is not numeric. Either failure names
/// the path down to the field, the first item of a list being named `0`.
pub open spec fn number_in(source: SourceView, json: Json) -> Result<Quantity, Failure> {
    match follow(json, source.path, 0) {
        Err(trail) => Err(Failure::MissingField(trail)),
        Ok(field) => if source.listed {
            let trail = joined(source.path.push("0"@));
            match field.item(0) {
                None => Err(Failure::MissingField(trail)),
                Some(first) => numeral_at(first.text(), trail),
            }
        } else {
            numeral_at(field.number(), joined(source.path))
        },
    }
}

/// Whether a result is the one that the mathematics gives.
pub open spec fn agrees(r: Result<Decimal, AppError>, m: Result<Quantity, Failure>) -> bool {
    match m {
        Ok(q) => r is Ok && r->Ok_0@ == q,
        Err(f) => r is Err && r->Err_0@ == f,
    }
}

/// Adds a name to the text of a path.
fn extend_trail(trail: &mut String, name: &str, first: bool)
    ensures
        final(trail)@ == if first {
            old(trail)@ + name@
        } else {
            old(trail)@ + seq!['.'] + name@
        },
{
    if !first {
        trail.push('.');
    }
    trail.append(name);
}

/// Reads a numeral that was found at `trail`.
fn read_numeral(numeral: Option<&str>, trail: String) -> (r: Result<Decimal, AppError>)
    ensures
        agrees(
            r,
            numeral_at(
                match numeral {
                    Some(text) => Some(text@),
                    None => None,
                },
                trail@,
            ),
        ),
{
    match numeral {
        None => Err(AppError::NonNumericField(trail)),
        Some(text) => match Decimal::parse(text) {
            None => Err(AppError::NonNumericField(trail)),
            Some(number) => Ok(number),
        },
    }
}

impl Source {
    /// Reads the number of this source from a reply.
    pub fn read(&self, json: &Json) -> (r: Result<Decimal, AppError>)
        ensures
            agrees(r, number_in(self@, *json)),
    {
        let ghost path = texts(self.path@);
        let mut here: &Json = json;
        let mut trail: String = String::new();
        let mut i: usize = 0;
        proof {
            assert(path.take(0) =~= Seq::<Seq<char>>::empty());
        }
        while i < self.path.len()
            invariant
                i <= self.path@.len(),
                path == texts(self.path@),
                trail@ == joined(path.take(i as int)),
                follow(*json, path, 0) == follow(*here, path, i as int),
            decreases self.path@.len() - i,
        {
            proof {
                assert(path.take(i + 1).drop_last() =~= path.take(i as int));
                assert(path.take(i + 1).last() == self.path@[i as int]@);
                assert(Seq::<char>::empty() + self.path@[i as int]@ =~= self.path@[i as int]@);
            }
            extend_trail(&mut trail, self.path[i].as_str(), i == 0);
            match here.get(self.path[i].as_str()) {
                None => {
                    return Err(AppError::MissingField(trail));
                },
                Some(next) => {
                    here = next;
                },
            }
            i += 1;
        }
        proof {
            assert(path.take(i as int) =~= path);
        }
        if self.listed {
            proof {
                assert(path.push("0"@).drop_last() =~= path);
                assert(Seq::<char>::empty() + "0"@ =~= "0"@);
            }
            extend_trail(&mut trail, "0", i == 0);
            match here.at(0) {
                None => Err(AppError::MissingField(trail)),
                Some(first) => read_numeral(first.as_text(), trail),
            }
        } else {
            read_numeral(here.as_number(), trail)
        }
    }
}

} // verus!
