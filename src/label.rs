//! Row and column labels, their text rendering and the `_x` rule that keeps
//! labels apart when two frames are put side by side.
use vstd::prelude::*;

verus! {

/// A row or column identifier. A timestamp is whole seconds since
/// 1970-01-01 00:00:00 UTC.
#[derive(Debug, Clone, PartialEq, Eq, Hash, PartialOrd, Ord)]
pub enum Label {
    Text(String),
    Integer(i64),
    Timestamp(i64),
}

/// The mathematical content of a [`Label`].
pub ghost enum LabelView {
    Text(Seq<char>),
    Integer(i64),
    Timestamp(i64),
}

impl View for Label {
    type V = LabelView;

    open spec fn view(&self) -> LabelView {
        match self {
            Label::Text(s) => LabelView::Text(s@),
            Label::Integer(n) => LabelView::Integer(*n),
            Label::Timestamp(t) => LabelView::Timestamp(*t),
        }
    }
}

pub open spec fn labels_view(s: Seq<Label>) -> Seq<LabelView> {
    s.map_values(|l: Label| l@)
}

pub open spec fn digit_char(d: nat) -> char {
    if d == 0 { '0' } else if d == 1 { '1' } else if d == 2 { '2' } else if d == 3 { '3' }
    else if d == 4 { '4' } else if d == 5 { '5' } else if d == 6 { '6' } else if d == 7 { '7' }
    else if d == 8 { '8' } else { '9' }
}

/// Decimal digits of a natural number, most significant first.
pub open spec fn nat_text(n: nat) -> Seq<char>
    decreases n,
{
    if n < 10 {
        seq![digit_char(n)]
    } else {
        nat_text(n / 10).push(digit_char(n % 10))
    }
}

/// Decimal rendering of an integer, with a leading `-` when negative.
pub open spec fn int_text(n: int) -> Seq<char> {
    if n < 0 {
        seq!['-'] + nat_text((-n) as nat)
    } else {
        nat_text(n as nat)
    }
}

/// What chrono renders for the UTC instant `secs` seconds after the epoch,
/// or `None` where chrono has no such instant.
pub uninterp spec fn utc_text(secs: i64) -> Option<Seq<char>>;

/// The text form of a label.
pub open spec fn label_text(l: LabelView) -> Seq<char> {
    match l {
        LabelView::Text(s) => s,
        LabelView::Integer(n) => int_text(n as int),
        LabelView::Timestamp(t) => match utc_text(t) {
            Some(s) => s,
            None => int_text(t as int),
        },
    }
}

/// A label renamed once by the collision rule: its text followed by `_x`.
pub open spec fn suffixed(l: LabelView) -> LabelView {
    LabelView::Text(label_text(l) + seq!['_', 'x'])
}

/// `l`, with `_x` appended as often as needed (at most `fuel` times) until it
/// is not among `used`.
pub open spec fn fresh_within(l: LabelView, used: Seq<LabelView>, fuel: nat) -> LabelView
    decreases fuel,
{
    if fuel == 0 || !used.contains(l) {
        l
    } else {
        fresh_within(suffixed(l), used, (fuel - 1) as nat)
    }
}

/// `l` made distinct from every label of `used` by the `_x` rule.
pub open spec fn fresh_label(l: LabelView, used: Seq<LabelView>) -> LabelView {
    fresh_within(l, used, used.len() + 1)
}

/// The labels of `second`, each renamed by the `_x` rule against `used` and
/// against the renamed labels before it.
pub open spec fn renamed_labels(used: Seq<LabelView>, second: Seq<LabelView>) -> Seq<LabelView>
    decreases second.len(),
{
    if second.len() == 0 {
        Seq::empty()
    } else {
        let l = fresh_label(second[0], used);
        seq![l] + renamed_labels(used.push(l), second.drop_first())
    }
}

/// Relies on chrono's `DateTime::<Utc>::from_timestamp` (`None` out of range)
/// and on the `Display` of the `DateTime` it returns.
#[verifier::external_body]
fn utc_render(secs: i64) -> (r: Option<String>)
    ensures
        r is Some <==> utc_text(secs) is Some,
        r matches Some(s) ==> utc_text(secs) == Some(s@),
{
    match chrono::DateTime::<chrono::Utc>::from_timestamp(secs, 0) {
        Some(d) => Some(d.to_string()),
        None => None,
    }
}

fn digit_str(d: u64) -> (r: &'static str)
    requires
        d < 10,
    ensures
        r@ == seq![digit_char(d as nat)],
{
    proof {
        reveal_strlit("0");
        reveal_strlit("1");
        reveal_strlit("2");
        reveal_strlit("3");
        reveal_strlit("4");
        reveal_strlit("5");
        reveal_strlit("6");
        reveal_strlit("7");
        reveal_strlit("8");
        reveal_strlit("9");
    }
    if d == 0 { "0" } else if d == 1 { "1" } else if d == 2 { "2" } else if d == 3 { "3" }
    else if d == 4 { "4" } else if d == 5 { "5" } else if d == 6 { "6" } else if d == 7 { "7" }
    else if d == 8 { "8" } else { "9" }
}

fn push_nat(s: &mut String, n: u64)
    ensures
        final(s)@ == old(s)@ + nat_text(n as nat),
    decreases n,
{
    if n >= 10 {
        push_nat(s, n / 10);
    }
    s.append(digit_str(n % 10));
    proof {
        if n >= 10 {
            assert(final(s)@ =~= old(s)@ + nat_text(n as nat));
        } else {
            assert(final(s)@ =~= old(s)@ + nat_text(n as nat));
        }
    }
}

/// Decimal text of an integer.
pub fn int_to_text(n: i64) -> (r: String)
    ensures
        r@ == int_text(n as int),
{
    let mut s = String::new();
    if n < 0 {
        proof { reveal_strlit("-"); }
        s.append("-");
        let mag: u64 = ((-(n + 1)) as u64) + 1;
        push_nat(&mut s, mag);
    } else {
        push_nat(&mut s, n as u64);
    }
    s
}

impl Label {
    /// A copy of this label.
    pub fn copied(&self) -> (r: Label)
        ensures
            r@ == self@,
    {
        match self {
            Label::Text(s) => Label::Text(s.clone()),
            Label::Integer(n) => Label::Integer(*n),
            Label::Timestamp(t) => Label::Timestamp(*t),
        }
    }

    /// Label equality by content.
    pub fn equals(&self, other: &Label) -> (r: bool)
        ensures
            r == (self@ == other@),
    {
        match (self, other) {
            (Label::Text(a), Label::Text(b)) => *a == *b,
            (Label::Integer(a), Label::Integer(b)) => *a == *b,
            (Label::Timestamp(a), Label::Timestamp(b)) => *a == *b,
            _ => false,
        }
    }

    /// The text form of this label: text as it is, integers in decimal,
    /// timestamps as chrono renders UTC instants.
    pub fn render(&self) -> (r: String)
        ensures
            r@ == label_text(self@),
    {
        match self {
            Label::Text(s) => s.clone(),
            Label::Integer(n) => int_to_text(*n),
            Label::Timestamp(t) => match utc_render(*t) {
                Some(s) => s,
                None => int_to_text(*t),
            },
        }
    }

    /// This label renamed once by the collision rule.
    pub fn suffixed(&self) -> (r: Label)
        ensures
            r@ == suffixed(self@),
    {
        let s = self.render();
        proof { reveal_strlit("_x"); }
        let r = s.concat("_x");
        assert(r@ =~= label_text(self@) + seq!['_', 'x']);
        Label::Text(r)
    }
}

/// The default label of position `i`: its decimal text.
pub fn position_label(i: usize) -> (r: Label)
    ensures
        r@ == LabelView::Text(nat_text(i as nat)),
{
    let mut s = String::new();
    push_nat(&mut s, i as u64);
    assert(s@ =~= nat_text(i as nat));
    Label::Text(s)
}

/// Whether `l` occurs in `labels`.
pub fn contains_label(labels: &Vec<Label>, l: &Label) -> (r: bool)
    ensures
        r == labels_view(labels@).contains(l@),
{
    let mut i: usize = 0;
    while i < labels.len()
        invariant
            i <= labels.len(),
            forall|k: int| 0 <= k < i ==> labels@[k]@ != l@,
        decreases labels.len() - i,
    {
        if labels[i].equals(l) {
            assert(labels_view(labels@)[i as int] == l@);
            return true;
        }
        i += 1;
    }
    proof {
        if labels_view(labels@).contains(l@) {
            let k = choose|k: int| 0 <= k < labels_view(labels@).len() && labels_view(labels@)[k] == l@;
            assert(labels@[k]@ == l@);
        }
    }
    false
}

/// `l` renamed by the `_x` rule until it is distinct from every label of `used`.
pub fn fresh_label_for(l: &Label, used: &Vec<Label>) -> (r: Label)
    ensures
        r@ == fresh_label(l@, labels_view(used@)),
{
    let ghost u = labels_view(used@);
    let mut cand = l.copied();
    let mut fuel: usize = used.len();
    let ghost total: nat = u.len() + 1;
    // `fuel + 1` rounds of renaming remain
    if !contains_label(used, &cand) {
        return cand;
    }
    assert(fresh_label(l@, u) == fresh_within(suffixed(l@), u, u.len()));
    cand = cand.suffixed();
    while fuel > 0
        invariant
            u == labels_view(used@),
            fuel <= used.len(),
            fresh_label(l@, u) == fresh_within(cand@, u, fuel as nat),
        decreases fuel,
    {
        if !contains_label(used, &cand) {
            return cand;
        }
        cand = cand.suffixed();
        fuel -= 1;
    }
    cand
}

/// The labels of `second` renamed by the `_x` rule against `first` and against
/// one another.
pub fn rename_against(first: &Vec<Label>, second: &Vec<Label>) -> (r: Vec<Label>)
    ensures
        labels_view(r@) == renamed_labels(labels_view(first@), labels_view(second@)),
{
    let mut used: Vec<Label> = Vec::new();
    let mut i: usize = 0;
    while i < first.len()
        invariant
            i <= first.len(),
            labels_view(used@) =~= labels_view(first@).subrange(0, i as int),
        decreases first.len() - i,
    {
        let ghost before = labels_view(used@);
        used.push(first[i].copied());
        assert(labels_view(used@) =~= before.push(first@[i as int]@));
        i += 1;
    }
    let mut out: Vec<Label> = Vec::new();
    let mut j: usize = 0;
    let ghost whole = renamed_labels(labels_view(first@), labels_view(second@));
    assert(labels_view(used@) =~= labels_view(first@));
    assert(labels_view(second@).subrange(0, second.len() as int) =~= labels_view(second@));
    while j < second.len()
        invariant
            j <= second.len(),
            whole == renamed_labels(labels_view(first@), labels_view(second@)),
            whole == labels_view(out@) + renamed_labels(
                labels_view(used@),
                labels_view(second@).subrange(j as int, second.len() as int),
            ),
        decreases second.len() - j,
    {
        let l = fresh_label_for(&second[j], &used);
        let ghost rest = labels_view(second@).subrange(j as int, second.len() as int);
        assert(rest[0] == second@[j as int]@);
        assert(rest.drop_first() =~= labels_view(second@).subrange(j + 1, second.len() as int));
        let ghost old_used = labels_view(used@);
        let ghost old_out = labels_view(out@);
        let l2 = l.copied();
        used.push(l);
        out.push(l2);
        assert(labels_view(used@) =~= old_used.push(l2@));
        assert(labels_view(out@) =~= old_out.push(l2@));
        assert(whole =~= labels_view(out@) + renamed_labels(
            labels_view(used@),
            labels_view(second@).subrange(j + 1, second.len() as int),
        ));
        j += 1;
    }
    assert(labels_view(second@).subrange(second.len() as int, second.len() as int) =~= Seq::<LabelView>::empty());
    assert(whole =~= labels_view(out@));
    out
}

} // verus!
