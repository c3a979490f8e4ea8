//! Generation of a benchmark dataset: schemas are drawn at random, the
//! generator writes a query and then a question for it, and every finished
//! triple is kept in order.
use rand::seq::IndexedRandom;
use vstd::prelude::*;
use vstd::string::*;

use crate::models::Response;

verus! {

#[verifier::external_type_specification]
#[verifier::external_body]
pub struct ExThreadRng(rand::rngs::ThreadRng);

/// Calls `rand::rng`, the handle to the thread's random number generator.
/// Nothing is stated of it; the crate stops the program when the operating
/// system's random source cannot be read, which no argument can rule out.
#[verifier::external_body]
fn thread_rng() -> rand::rngs::ThreadRng {
    rand::rng()
}

/// Calls `rand::seq::IndexedRandom::choose` on `items`: it gives nothing for
/// an empty slice and otherwise one of the items, drawn at random (which one
/// is left unsaid).
#[verifier::external_body]
fn choose_one(items: &[String], rng: &mut rand::rngs::ThreadRng) -> (r: Option<String>)
    ensures
        r is None <==> items@.len() == 0,
        r matches Some(s) ==> items@.contains(s),
{
    items.choose(rng).cloned()
}

/// Why no dataset can be generated.
#[derive(Clone, Copy, Debug, PartialEq, Eq, Structural)]
pub enum GenerationError {
    /// The schema set is empty.
    NoSchema,
}

impl GenerationError {
    /// The message shown for this error.
    pub fn message(&self) -> (r: String)
        ensures
            r@ == "No given schema"@,
    {
        String::from_str("No given schema")
    }
}

/// Checks that there is a schema to draw from.
pub fn check_schemas(schemas: &Vec<String>) -> (r: Result<(), GenerationError>)
    ensures
        r is Err <==> schemas.len() == 0,
{
    if schemas.len() == 0 {
        Err(GenerationError::NoSchema)
    } else {
        Ok(())
    }
}

/// Draws one of the schemas at random; there is none to draw from an empty
/// set.
pub fn pick_schema(schemas: &Vec<String>) -> (r: Option<String>)
    ensures
        r is None <==> schemas.len() == 0,
        r matches Some(s) ==> schemas@.contains(s),
{
    let mut rng = thread_rng();
    choose_one(schemas.as_slice(), &mut rng)
}

/// The message that asks the generator for the question that a Cypher query
/// over a schema answers.
pub fn question_prompt(schema: &str, cypher: &str) -> (r: String)
    ensures
        r@ == "Schema:\n"@ + schema@ + "\n\nCypher:\n"@ + cypher@,
{
    let mut r = String::from_str("Schema:\n");
    r.append(schema);
    r.append("\n\nCypher:\n");
    r.append(cypher);
    r
}

/// The triples generated so far, in the order in which they were finished.
pub struct DatasetLog {
    entries: Vec<Response>,
}

impl View for DatasetLog {
    type V = Seq<Response>;

    closed spec fn view(&self) -> Seq<Response> {
        self.entries@
    }
}

impl DatasetLog {
    /// A log with nothing in it.
    pub fn new() -> (r: DatasetLog)
        ensures
            r@ == Seq::<Response>::empty(),
    {
        DatasetLog { entries: Vec::new() }
    }

    /// Adds a finished triple after the ones already recorded.
    pub fn record(&mut self, schema: String, cypher: String, question: String)
        ensures
            final(self)@ == old(self)@.push(Response { schema, cypher, question }),
    {
        self.entries.push(Response { schema, cypher, question });
    }

    /// The recorded triples, in order.
    pub fn entries(&self) -> (r: &Vec<Response>)
        ensures
            r@ == self@,
    {
        &self.entries
    }
}

} // verus!
