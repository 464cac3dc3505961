//! What a widget window is opened with, and the table of the windows that
//! were opened.
//!
//! Every window gets a label made of a running number and the window's
//! identifier, so that no two windows share a label even when they show the
//! same widget.

use crate::table::Table;
use vstd::prelude::*;

verus! {

/// The table that a list of key and value pairs stands for: a later pair
/// with the same key takes the place of an earlier one.
pub open spec fn pairs_map(pairs: Seq<(String, String)>) -> Map<Seq<char>, String>
    decreases pairs.len(),
{
    if pairs.len() == 0 {
        Map::empty()
    } else {
        pairs_map(pairs.drop_last()).insert(pairs.last().0@, pairs.last().1)
    }
}

/// Collects key and value pairs into a table.
pub fn collect_pairs(pairs: &Vec<(String, String)>) -> (t: Table<String>)
    ensures
        t.wf(),
        t@ == pairs_map(pairs@),
{
    let mut t: Table<String> = Table::new();
    let mut i: usize = 0;
    while i < pairs.len()
        invariant
            i <= pairs.len(),
            t.wf(),
            t@ == pairs_map(pairs@.subrange(0, i as int)),
        decreases pairs.len() - i,
    {
        let key = pairs[i].0.clone();
        let value = pairs[i].1.clone();
        proof {
            let next = pairs@.subrange(0, i as int + 1);
            assert(next.drop_last() =~= pairs@.subrange(0, i as int));
            assert(next.last() == pairs@[i as int]);
        }
        t.insert(key, value);
        i += 1;
    }
    assert(pairs@.subrange(0, i as int) =~= pairs@);
    t
}

/// Reads one window argument, written as a key, an equals sign and a value.
/// The key ends at the first equals sign; the value is the rest and may hold
/// more of them. `None` where the text has no equals sign.
pub fn parse_pair(text: &str) -> (r: Option<(String, String)>)
    ensures
        r is Some <==> text@.contains('='),
        r matches Some((key, value)) ==> !key@.contains('=') && text@ == key@ + seq!['='] + value@,
{
    let n = text.unicode_len();
    let mut i: usize = 0;
    while i < n
        invariant
            i <= n,
            n == text@.len(),
            forall|j: int| 0 <= j < i ==> text@[j] != '=',
        decreases n - i,
    {
        if text.get_char(i) == '=' {
            let key = text.substring_char(0, i).to_owned();
            let value = text.substring_char(i + 1, n).to_owned();
            assert(text@ =~= key@ + seq!['='] + value@);
            assert(text@[i as int] == '=');
            return Some((key, value));
        }
        i += 1;
    }
    None
}

/// The arguments and the environment a window was opened with.
#[derive(Debug)]
pub struct OpenWindowArgs {
    pub window_id: String,
    pub args: Table<String>,
    pub env: Table<String>,
}

impl OpenWindowArgs {
    pub open spec fn wf(self) -> bool {
        self.args.wf() && self.env.wf()
    }

    /// The arguments for the window `window_id`: the pairs of `args`, none
    /// where `args` is `None`, and the environment `env`.
    pub fn new(window_id: String, args: Option<Vec<(String, String)>>, env: Vec<(String, String)>) -> (r:
        Self)
        ensures
            r.wf(),
            r.window_id == window_id,
            r.args@ == pairs_map(
                match args {
                    Some(pairs) => pairs@,
                    None => Seq::empty(),
                },
            ),
            r.env@ == pairs_map(env@),
    {
        let args_table = match &args {
            Some(pairs) => collect_pairs(pairs),
            None => {
                assert(pairs_map(Seq::<(String, String)>::empty()) =~= Map::<Seq<char>, String>::empty());
                Table::new()
            },
        };
        OpenWindowArgs { window_id, args: args_table, env: collect_pairs(&env) }
    }
}

/// The character that writes the digit `d`.
pub open spec fn digit_char(d: nat) -> char {
    if d == 0 {
        '0'
    } else if d == 1 {
        '1'
    } else if d == 2 {
        '2'
    } else if d == 3 {
        '3'
    } else if d == 4 {
        '4'
    } else if d == 5 {
        '5'
    } else if d == 6 {
        '6'
    } else if d == 7 {
        '7'
    } else if d == 8 {
        '8'
    } else {
        '9'
    }
}

/// The digit that `c` writes; 0 for a character that writes none.
pub open spec fn digit_value(c: char) -> nat {
    if c == '1' {
        1
    } else if c == '2' {
        2
    } else if c == '3' {
        3
    } else if c == '4' {
        4
    } else if c == '5' {
        5
    } else if c == '6' {
        6
    } else if c == '7' {
        7
    } else if c == '8' {
        8
    } else if c == '9' {
        9
    } else {
        0
    }
}

/// `n` written in decimal, without leading zeros.
pub open spec fn decimal_text(n: nat) -> Seq<char>
    decreases n,
{
    if n < 10 {
        seq![digit_char(n)]
    } else {
        decimal_text(n / 10).push(digit_char(n % 10))
    }
}

/// The number that the digits of `text` write.
pub open spec fn decimal_value(text: Seq<char>) -> nat
    decreases text.len(),
{
    if text.len() == 0 {
        0
    } else {
        decimal_value(text.drop_last()) * 10 + digit_value(text.last())
    }
}

/// The label of the window that was opened as number `number` to show
/// `window_id`.
pub open spec fn label_text(number: nat, window_id: Seq<char>) -> Seq<char> {
    decimal_text(number) + seq!['-'] + window_id
}

/// A number in decimal is one or more digits, and reading them gives the
/// number back.
pub proof fn lemma_decimal(n: nat)
    ensures
        decimal_text(n).len() > 0,
        forall|i: int| 0 <= i < decimal_text(n).len() ==> #[trigger] decimal_text(n)[i] != '-',
        decimal_value(decimal_text(n)) == n,
    decreases n,
{
    if n < 10 {
        let text = decimal_text(n);
        assert(text.drop_last() =~= Seq::<char>::empty());
        assert(decimal_value(text.drop_last()) == 0);
        assert(text.last() == digit_char(n));
    } else {
        lemma_decimal(n / 10);
        let text = decimal_text(n);
        assert(text.drop_last() =~= decimal_text(n / 10));
        assert(text.last() == digit_char(n % 10));
        assert(digit_value(digit_char(n % 10)) == n % 10);
    }
}

/// Windows that were opened under different numbers have different labels,
/// whatever they show.
pub proof fn lemma_label_number(a: nat, first: Seq<char>, b: nat, second: Seq<char>)
    requires
        label_text(a, first) == label_text(b, second),
    ensures
        a == b,
        first == second,
{
    lemma_decimal(a);
    lemma_decimal(b);
    let da = decimal_text(a);
    let db = decimal_text(b);
    let la = label_text(a, first);
    let lb = label_text(b, second);
    assert(la[da.len() as int] == '-');
    assert(lb[db.len() as int] == '-');
    if da.len() < db.len() {
        assert(lb[da.len() as int] == db[da.len() as int]);
    } else if db.len() < da.len() {
        assert(la[db.len() as int] == da[db.len() as int]);
    }
    assert(da =~= db) by {
        assert forall|i: int| 0 <= i < da.len() implies da[i] == db[i] by {
            assert(la[i] == da[i]);
            assert(lb[i] == db[i]);
        }
    }
    assert(first =~= second) by {
        assert(first.len() == second.len()) by {
            assert(la.len() == da.len() + 1 + first.len());
            assert(lb.len() == db.len() + 1 + second.len());
        }
        assert forall|i: int| 0 <= i < first.len() implies first[i] == second[i] by {
            assert(la[da.len() + 1 + i] == first[i]);
            assert(lb[db.len() + 1 + i] == second[i]);
        }
    }
}

fn digit_str(d: u64) -> (s: &'static str)
    requires
        d < 10,
    ensures
        s@ == seq![digit_char(d as nat)],
{
    proof {
        reveal_strlit("0");
        reveal_strlit("1");
        reveal_strlit("2");
        reveal_strlit("3");
        reveal_strlit("4");
        reveal_strlit("5");
        reveal_strlit("6");
        reveal_strlit("7");
        reveal_strlit("8");
        reveal_strlit("9");
    }
    let s = if d == 0 {
        "0"
    } else if d == 1 {
        "1"
    } else if d == 2 {
        "2"
    } else if d == 3 {
        "3"
    } else if d == 4 {
        "4"
    } else if d == 5 {
        "5"
    } else if d == 6 {
        "6"
    } else if d == 7 {
        "7"
    } else if d == 8 {
        "8"
    } else {
        "9"
    };
    assert(s@ =~= seq![digit_char(d as nat)]);
    s
}

/// Writes `n` in decimal.
pub fn decimal(n: u64) -> (s: String)
    ensures
        s@ == decimal_text(n as nat),
    decreases n,
{
    if n < 10 {
        digit_str(n).to_owned()
    } else {
        let mut s = decimal(n / 10);
        s.append(digit_str(n % 10));
        assert(s@ =~= decimal_text(n as nat));
        s
    }
}

/// The label of the window that is opened as number `number` to show
/// `window_id`: the number, a hyphen, the identifier.
pub fn window_label(number: u64, window_id: &str) -> (label: String)
    ensures
        label@ == label_text(number as nat, window_id@),
{
    let mut label = decimal(number);
    label.append("-");
    label.append(window_id);
    proof {
        reveal_strlit("-");
        assert("-"@ =~= seq!['-']);
    }
    label
}

/// The title of a window that shows `window_id`.
pub fn window_title(window_id: &str) -> (title: String)
    ensures
        title@ == "Zebar - "@ + window_id@,
{
    let mut title = "Zebar - ".to_owned();
    title.append(window_id);
    title
}

/// The script that hands a window the arguments it was opened with, given
/// those arguments as JSON text.
pub fn open_args_script(json: &str) -> (script: String)
    ensures
        script@ == "window.__ZEBAR_OPEN_ARGS="@ + json@,
{
    let mut script = "window.__ZEBAR_OPEN_ARGS=".to_owned();
    script.append(json);
    script
}

/// The windows that were opened, by label.
pub struct OpenWindows {
    count: u64,
    windows: Table<OpenWindowArgs>,
}

impl View for OpenWindows {
    type V = Map<Seq<char>, OpenWindowArgs>;

    closed spec fn view(&self) -> Map<Seq<char>, OpenWindowArgs> {
        self.windows@
    }
}

impl OpenWindows {
    /// How many windows have been opened so far.
    pub closed spec fn opened(self) -> nat {
        self.count as nat
    }

    /// `label` is the label of a window that was opened as one of the first
    /// `count`.
    pub open spec fn numbered(label: Seq<char>, count: nat) -> bool {
        exists|number: nat, window_id: Seq<char>|
            1 <= number <= count && label == #[trigger] label_text(number, window_id)
    }

    pub closed spec fn wf(self) -> bool {
        &&& self.windows.wf()
        &&& forall|label: Seq<char>| #[trigger]
            self.windows@.dom().contains(label) ==> self.windows@[label].wf() && Self::numbered(
                label,
                self.count as nat,
            )
    }

    pub fn new() -> (w: Self)
        ensures
            w.wf(),
            w@ == Map::<Seq<char>, OpenWindowArgs>::empty(),
            w.opened() == 0,
    {
        OpenWindows { count: 0, windows: Table::new() }
    }

    /// The number of windows in the table.
    pub fn len(&self) -> (n: usize)
        requires
            self.wf(),
        ensures
            n == self@.dom().len(),
    {
        self.windows.len()
    }

    /// Records a window that is opened with `args` and returns its label.
    /// The label is new: no window in the table has it. `None`, and no
    /// change, once `u64::MAX` windows have been opened.
    pub fn open(&mut self, args: OpenWindowArgs) -> (r: Option<String>)
        requires
            old(self).wf(),
            args.wf(),
        ensures
            final(self).wf(),
            match r {
                Some(label) => {
                    &&& old(self).opened() < u64::MAX
                    &&& final(self).opened() == old(self).opened() + 1
                    &&& label@ == label_text(final(self).opened(), args.window_id@)
                    &&& !old(self)@.dom().contains(label@)
                    &&& final(self)@ == old(self)@.insert(label@, args)
                },
                None => old(self).opened() == u64::MAX && *final(self) == *old(self),
            },
    {
        if self.count == u64::MAX {
            return None;
        }
        let ghost before = *self;
        let number = self.count + 1;
        let label = window_label(number, args.window_id.as_str());
        proof {
            if before.windows@.dom().contains(label@) {
                let (n, id) = choose|n: nat, id: Seq<char>|
                    1 <= n <= before.count && label@ == #[trigger] label_text(n, id);
                lemma_label_number(n, id, number as nat, args.window_id@);
            }
        }
        self.windows.insert(label.clone(), args);
        self.count = number;
        proof {
            assert forall|l: Seq<char>| #[trigger] self.windows@.dom().contains(l) implies self.windows@[l].wf()
                && Self::numbered(l, self.count as nat) by {
                if l == label@ {
                    assert(l == label_text(number as nat, args.window_id@));
                } else {
                    assert(before.windows@.dom().contains(l));
                    let (n, id) = choose|n: nat, id: Seq<char>|
                        1 <= n <= before.count && l == #[trigger] label_text(n, id);
                    assert(1 <= n <= self.count && l == label_text(n, id));
                }
            }
        }
        Some(label)
    }

    /// What the window `label` was opened with.
    pub fn get(&self, label: &str) -> (r: Option<&OpenWindowArgs>)
        requires
            self.wf(),
        ensures
            r == (if self@.dom().contains(label@) {
                Some(&self@[label@])
            } else {
                None
            }),
            r matches Some(args) ==> args.wf(),
    {
        self.windows.get(label)
    }
}

} // verus!
