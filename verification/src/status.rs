//! What the health endpoints answer.

use vstd::prelude::*;

verus! {

/// What is counted while the program runs.
#[derive(Clone, Copy, Debug)]
pub struct Counters {
    pub rounds: u32,
    pub history: u32,
    pub connected: bool,
    pub reconnects: u32,
}

/// The value of a field.
#[derive(Debug)]
pub enum FieldValue {
    Text(String),
    Count(u32),
    Flag(bool),
}

/// What the value of a field says.
pub enum ValueView {
    Text(Seq<char>),
    Count(u32),
    Flag(bool),
}

impl View for FieldValue {
    type V = ValueView;

    open spec fn view(&self) -> ValueView {
        match *self {
            FieldValue::Text(s) => ValueView::Text(s@),
            FieldValue::Count(n) => ValueView::Count(n),
            FieldValue::Flag(b) => ValueView::Flag(b),
        }
    }
}

/// A field of an answer.
#[derive(Debug)]
pub struct Field {
    pub name: String,
    pub value: FieldValue,
}

/// What the fields of an answer say, by their names.
pub open spec fn answer(fields: Seq<Field>) -> Seq<(Seq<char>, ValueView)> {
    fields.map_values(|f: Field| (f.name@, f.value@))
}

/// Adds a field.
fn put(fields: &mut Vec<Field>, name: &str, value: FieldValue)
    ensures
        answer(final(fields)@) == answer(old(fields)@).push((name@, value@)),
{
    fields.push(Field { name: name.to_owned(), value });
    assert(answer(fields@) =~= answer(old(fields)@).push((name@, value@)));
}

/// The answer at the root: the service and all counts.
pub fn root(c: &Counters) -> (r: Vec<Field>)
    ensures
        answer(r@) == seq![
            ("service"@, ValueView::Text("JetX Data Scraper"@)),
            ("status"@, ValueView::Text("running"@)),
            ("rounds_tracked"@, ValueView::Count(c.rounds)),
            ("history_rounds"@, ValueView::Count(c.history)),
            ("ws_connected"@, ValueView::Flag(c.connected)),
            ("reconnects"@, ValueView::Count(c.reconnects)),
        ],
{
    let mut r: Vec<Field> = Vec::new();
    assert(answer(r@) =~= Seq::empty());
    put(&mut r, "service", FieldValue::Text("JetX Data Scraper".to_owned()));
    put(&mut r, "status", FieldValue::Text("running".to_owned()));
    put(&mut r, "rounds_tracked", FieldValue::Count(c.rounds));
    put(&mut r, "history_rounds", FieldValue::Count(c.history));
    put(&mut r, "ws_connected", FieldValue::Flag(c.connected));
    put(&mut r, "reconnects", FieldValue::Count(c.reconnects));
    r
}

/// The answer about the program's health.
pub fn health(c: &Counters) -> (r: Vec<Field>)
    ensures
        answer(r@) == seq![
            ("status"@, ValueView::Text("healthy"@)),
            ("ws_connected"@, ValueView::Flag(c.connected)),
            ("rounds"@, ValueView::Count(c.rounds)),
        ],
{
    let mut r: Vec<Field> = Vec::new();
    assert(answer(r@) =~= Seq::empty());
    put(&mut r, "status", FieldValue::Text("healthy".to_owned()));
    put(&mut r, "ws_connected", FieldValue::Flag(c.connected));
    put(&mut r, "rounds", FieldValue::Count(c.rounds));
    r
}

/// The answer about what is being watched.
pub fn status(c: &Counters) -> (r: Vec<Field>)
    ensures
        answer(r@) == seq![
            ("status"@, ValueView::Text("monitoring"@)),
            ("rounds_tracked"@, ValueView::Count(c.rounds)),
            ("history_size"@, ValueView::Count(c.history)),
            ("reconnects"@, ValueView::Count(c.reconnects)),
            ("ws_live"@, ValueView::Flag(c.connected)),
        ],
{
    let mut r: Vec<Field> = Vec::new();
    assert(answer(r@) =~= Seq::empty());
    put(&mut r, "status", FieldValue::Text("monitoring".to_owned()));
    put(&mut r, "rounds_tracked", FieldValue::Count(c.rounds));
    put(&mut r, "history_size", FieldValue::Count(c.history));
    put(&mut r, "reconnects", FieldValue::Count(c.reconnects));
    put(&mut r, "ws_live", FieldValue::Flag(c.connected));
    r
}

/// An answer says of each field its name and its value, in order, and nothing else.
pub proof fn lemma_answer(fields: Seq<Field>, i: int)
    requires
        0 <= i < fields.len(),
    ensures
        answer(fields).len() == fields.len(),
        answer(fields)[i].0 == fields[i].name@,
        fields[i].value matches FieldValue::Text(s) ==> answer(fields)[i].1 == ValueView::Text(s@),
        fields[i].value matches FieldValue::Count(n) ==> answer(fields)[i].1 == ValueView::Count(n),
        fields[i].value matches FieldValue::Flag(b) ==> answer(fields)[i].1 == ValueView::Flag(b),
{
}

/// Whether one of the fields of an answer has this name and this value.
pub open spec fn says(fields: Seq<Field>, name: Seq<char>, value: ValueView) -> bool {
    exists|i: int| 0 <= i < fields.len() && (name, value) == #[trigger] answer(fields)[i]
}

/// The three answers agree: each says of the rounds, the history, the reconnects and the
/// connection what is counted, as far as it speaks of them.
pub proof fn lemma_answers_agree(
    c: Counters,
    at_root: Vec<Field>,
    at_health: Vec<Field>,
    at_status: Vec<Field>,
)
    requires
        call_ensures(root, (&c,), at_root),
        call_ensures(health, (&c,), at_health),
        call_ensures(status, (&c,), at_status),
    ensures
        at_root.len() == 6 && at_health.len() == 3 && at_status.len() == 5,
        says(at_root@, "service"@, ValueView::Text("JetX Data Scraper"@)),
        says(at_root@, "status"@, ValueView::Text("running"@)),
        says(at_health@, "status"@, ValueView::Text("healthy"@)),
        says(at_status@, "status"@, ValueView::Text("monitoring"@)),
        says(at_root@, "rounds_tracked"@, ValueView::Count(c.rounds)),
        says(at_health@, "rounds"@, ValueView::Count(c.rounds)),
        says(at_status@, "rounds_tracked"@, ValueView::Count(c.rounds)),
        says(at_root@, "history_rounds"@, ValueView::Count(c.history)),
        says(at_status@, "history_size"@, ValueView::Count(c.history)),
        says(at_root@, "reconnects"@, ValueView::Count(c.reconnects)),
        says(at_status@, "reconnects"@, ValueView::Count(c.reconnects)),
        says(at_root@, "ws_connected"@, ValueView::Flag(c.connected)),
        says(at_health@, "ws_connected"@, ValueView::Flag(c.connected)),
        says(at_status@, "ws_live"@, ValueView::Flag(c.connected)),
{
    let a = answer(at_root@);
    let b = answer(at_health@);
    let d = answer(at_status@);
    assert(a.len() == 6 && b.len() == 3 && d.len() == 5);
    assert(a[0].0 == "service"@ && a[1].0 == "status"@ && a[2].0 == "rounds_tracked"@);
    assert(a[3].0 == "history_rounds"@ && a[4].0 == "ws_connected"@ && a[5].0 == "reconnects"@);
    assert(b[0].0 == "status"@ && b[1].0 == "ws_connected"@ && b[2].0 == "rounds"@);
    assert(d[0].0 == "status"@ && d[1].0 == "rounds_tracked"@ && d[2].0 == "history_size"@);
    assert(d[3].0 == "reconnects"@ && d[4].0 == "ws_live"@);
}

} // verus!
