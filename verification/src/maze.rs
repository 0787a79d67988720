//! The vault maze: a grid of numbers and operators walked from the start
//! (worth 22) to the door, which opens when the running value is 30. Every
//! expression ends on a number, so the grid is searched as a graph whose
//! nodes are its numbered rooms and whose edges apply one operation.
use vstd::prelude::*;
use std::collections::HashMap;
use crate::text::{digits_value, is_digit};

verus! {

broadcast use vstd::std_specs::hash::group_hash_axioms;

/// The most transitions a walk may take.
pub const MAX_TRANSITIONS: u32 = 8;

/// The value the door asks for.
pub const TARGET_NUMBER: i64 = 30;

/// The value at the start.
pub const START_NUMBER: i64 = 22;

/// A room of the maze.
#[derive(PartialEq, Eq, Structural, Hash, Copy, Clone, Debug)]
pub enum Node {
    Start,
    Door,
    Left4,
    Top8,
    Bottom9,
    Right18,
    Middle11,
    Middle4,
}

/// The operation a transition applies to the running value.
#[derive(PartialEq, Eq, Structural, Copy, Clone, Debug)]
pub enum Move {
    Minus9,
    Minus4,
    Plus4,
    Minus18,
    Minus1,
    Minus11,
    Minus8,
    Times4,
    Times18,
    Times11,
    Times8,
    Times9,
    /// Multiplication by one.
    Identity,
}

/// A transition: the room it leads to and the operation on the way.
pub type Transition = (Node, Move);

/// The value after applying an operation to `x`.
pub open spec fn move_value(m: Move, x: int) -> int {
    match m {
        Move::Minus9 => x - 9,
        Move::Minus4 => x - 4,
        Move::Plus4 => x + 4,
        Move::Minus18 => x - 18,
        Move::Minus1 => x - 1,
        Move::Minus11 => x - 11,
        Move::Minus8 => x - 8,
        Move::Times4 => x * 4,
        Move::Times18 => x * 18,
        Move::Times11 => x * 11,
        Move::Times8 => x * 8,
        Move::Times9 => x * 9,
        Move::Identity => x,
    }
}

/// How an operation is written in the expression.
pub open spec fn move_text(m: Move) -> Seq<char> {
    match m {
        Move::Minus9 => " - 9"@,
        Move::Minus4 => " - 4"@,
        Move::Plus4 => " + 4"@,
        Move::Minus18 => " - 18"@,
        Move::Minus1 => " - 1"@,
        Move::Minus11 => " - 11"@,
        Move::Minus8 => " - 8"@,
        Move::Times4 => " * 4"@,
        Move::Times18 => " * 18"@,
        Move::Times11 => " * 11"@,
        Move::Times8 => " * 8"@,
        Move::Times9 => " * 9"@,
        Move::Identity => " * 1"@,
    }
}

/// The text is one step of an expression: a space, an operator (`+`, `-`
/// or `*`), a space and the decimal digits of the operand.
pub open spec fn well_written_step(t: Seq<char>) -> bool {
    &&& t.len() >= 4
    &&& t[0] == ' '
    &&& (t[1] == '+' || t[1] == '-' || t[1] == '*')
    &&& t[2] == ' '
    &&& forall|i: int| 3 <= i < t.len() ==> is_digit(#[trigger] t[i])
}

/// The value a written step gives when applied to `x`, read off its text.
pub open spec fn written_step_value(t: Seq<char>, x: int) -> int {
    let n = digits_value(t.skip(3));
    if t[1] == '+' {
        x + n
    } else if t[1] == '-' {
        x - n
    } else {
        x * n
    }
}

proof fn lemma_digits_one(c: char)
    ensures
        digits_value(seq![c]) == c as int - 48,
{
    assert(seq![c].drop_last() =~= Seq::<char>::empty());
    assert(digits_value(Seq::<char>::empty()) == 0);
}

proof fn lemma_digits_two(c: char, e: char)
    ensures
        digits_value(seq![c, e]) == (c as int - 48) * 10 + (e as int - 48),
{
    assert(seq![c, e].drop_last() =~= seq![c]);
    lemma_digits_one(c);
}

/// Each operation is written as what it does: the expression step its text
/// shows, applied to a value, gives the value the operation gives.
pub proof fn law_move_written_as_applied(m: Move, x: int)
    ensures
        well_written_step(move_text(m)),
        move_value(m, x) == written_step_value(move_text(m), x),
{
    let t = move_text(m);
    match m {
        Move::Minus9 => {
            reveal_strlit(" - 9");
            assert(t =~= seq![' ', '-', ' ', '9']);
            assert(t.skip(3) =~= seq!['9']);
            lemma_digits_one('9');
        },
        Move::Minus4 => {
            reveal_strlit(" - 4");
            assert(t =~= seq![' ', '-', ' ', '4']);
            assert(t.skip(3) =~= seq!['4']);
            lemma_digits_one('4');
        },
        Move::Plus4 => {
            reveal_strlit(" + 4");
            assert(t =~= seq![' ', '+', ' ', '4']);
            assert(t.skip(3) =~= seq!['4']);
            lemma_digits_one('4');
        },
        Move::Minus18 => {
            reveal_strlit(" - 18");
            assert(t =~= seq![' ', '-', ' ', '1', '8']);
            assert(t.skip(3) =~= seq!['1', '8']);
            lemma_digits_two('1', '8');
        },
        Move::Minus1 => {
            reveal_strlit(" - 1");
            assert(t =~= seq![' ', '-', ' ', '1']);
            assert(t.skip(3) =~= seq!['1']);
            lemma_digits_one('1');
        },
        Move::Minus11 => {
            reveal_strlit(" - 11");
            assert(t =~= seq![' ', '-', ' ', '1', '1']);
            assert(t.skip(3) =~= seq!['1', '1']);
            lemma_digits_two('1', '1');
        },
        Move::Minus8 => {
            reveal_strlit(" - 8");
            assert(t =~= seq![' ', '-', ' ', '8']);
            assert(t.skip(3) =~= seq!['8']);
            lemma_digits_one('8');
        },
        Move::Times4 => {
            reveal_strlit(" * 4");
            assert(t =~= seq![' ', '*', ' ', '4']);
            assert(t.skip(3) =~= seq!['4']);
            lemma_digits_one('4');
        },
        Move::Times18 => {
            reveal_strlit(" * 18");
            assert(t =~= seq![' ', '*', ' ', '1', '8']);
            assert(t.skip(3) =~= seq!['1', '8']);
            lemma_digits_two('1', '8');
        },
        Move::Times11 => {
            reveal_strlit(" * 11");
            assert(t =~= seq![' ', '*', ' ', '1', '1']);
            assert(t.skip(3) =~= seq!['1', '1']);
            lemma_digits_two('1', '1');
        },
        Move::Times8 => {
            reveal_strlit(" * 8");
            assert(t =~= seq![' ', '*', ' ', '8']);
            assert(t.skip(3) =~= seq!['8']);
            lemma_digits_one('8');
        },
        Move::Times9 => {
            reveal_strlit(" * 9");
            assert(t =~= seq![' ', '*', ' ', '9']);
            assert(t.skip(3) =~= seq!['9']);
            lemma_digits_one('9');
        },
        Move::Identity => {
            reveal_strlit(" * 1");
            assert(t =~= seq![' ', '*', ' ', '1']);
            assert(t.skip(3) =~= seq!['1']);
            lemma_digits_one('1');
        },
    }
}

/// The operation applied to `x` stays within 64-bit signed integers.
pub open spec fn move_defined(m: Move, x: int) -> bool {
    i64::MIN <= move_value(m, x) <= i64::MAX
}

impl Move {
    /// Applies the operation.
    pub fn apply(&self, x: i64) -> (r: i64)
        requires
            move_defined(*self, x as int),
        ensures
            r == move_value(*self, x as int),
    {
        match *self {
            Move::Minus9 => x - 9,
            Move::Minus4 => x - 4,
            Move::Plus4 => x + 4,
            Move::Minus18 => x - 18,
            Move::Minus1 => x - 1,
            Move::Minus11 => x - 11,
            Move::Minus8 => x - 8,
            Move::Times4 => x * 4,
            Move::Times18 => x * 18,
            Move::Times11 => x * 11,
            Move::Times8 => x * 8,
            Move::Times9 => x * 9,
            Move::Identity => x,
        }
    }

    /// How the operation is written in the expression.
    pub fn label(&self) -> (r: &'static str)
        ensures
            r@ == move_text(*self),
    {
        match *self {
            Move::Minus9 => " - 9",
            Move::Minus4 => " - 4",
            Move::Plus4 => " + 4",
            Move::Minus18 => " - 18",
            Move::Minus1 => " - 1",
            Move::Minus11 => " - 11",
            Move::Minus8 => " - 8",
            Move::Times4 => " * 4",
            Move::Times18 => " * 18",
            Move::Times11 => " * 11",
            Move::Times8 => " * 8",
            Move::Times9 => " * 9",
            Move::Identity => " * 1",
        }
    }
}

/// The transitions out of each room, in the order the search tries them.
/// The door has none.
pub open spec fn moves_from(n: Node) -> Seq<Transition> {
    match n {
        Node::Start => seq![
            (Node::Bottom9, Move::Minus9),
            (Node::Middle4, Move::Minus4),
            (Node::Middle4, Move::Plus4),
            (Node::Left4, Move::Plus4),
        ],
        Node::Bottom9 => seq![
            (Node::Middle4, Move::Minus4),
            (Node::Bottom9, Move::Minus9),
            (Node::Bottom9, Move::Times9),
            (Node::Right18, Move::Times18),
            (Node::Right18, Move::Minus18),
            (Node::Middle11, Move::Minus11),
        ],
        Node::Middle4 => seq![
            (Node::Middle4, Move::Minus4),
            (Node::Middle4, Move::Plus4),
            (Node::Middle4, Move::Times4),
            (Node::Bottom9, Move::Minus9),
            (Node::Middle11, Move::Times11),
            (Node::Middle11, Move::Minus11),
            (Node::Left4, Move::Times4),
            (Node::Left4, Move::Plus4),
            (Node::Right18, Move::Minus18),
            (Node::Top8, Move::Times8),
        ],
        Node::Left4 => seq![
            (Node::Left4, Move::Plus4),
            (Node::Left4, Move::Times4),
            (Node::Top8, Move::Times8),
            (Node::Middle11, Move::Times11),
            (Node::Middle4, Move::Plus4),
            (Node::Middle4, Move::Times4),
        ],
        Node::Right18 => seq![
            (Node::Right18, Move::Times18),
            (Node::Right18, Move::Minus18),
            (Node::Middle11, Move::Minus11),
            (Node::Middle11, Move::Times11),
            (Node::Bottom9, Move::Minus9),
            (Node::Bottom9, Move::Times9),
            (Node::Middle4, Move::Minus4),
            (Node::Door, Move::Identity),
        ],
        Node::Middle11 => seq![
            (Node::Middle11, Move::Minus11),
            (Node::Middle11, Move::Times11),
            (Node::Right18, Move::Minus18),
            (Node::Right18, Move::Times18),
            (Node::Bottom9, Move::Minus9),
            (Node::Middle4, Move::Minus4),
            (Node::Middle4, Move::Times4),
            (Node::Left4, Move::Times4),
            (Node::Top8, Move::Times8),
            (Node::Top8, Move::Minus8),
            (Node::Door, Move::Identity),
            (Node::Door, Move::Minus1),
        ],
        Node::Top8 => seq![
            (Node::Top8, Move::Minus8),
            (Node::Top8, Move::Times8),
            (Node::Left4, Move::Times4),
            (Node::Middle4, Move::Times4),
            (Node::Middle11, Move::Minus11),
            (Node::Middle11, Move::Times11),
            (Node::Door, Move::Minus1),
        ],
        Node::Door => seq![],
    }
}

/// The maze's transition table: every room but the door has its list.
pub open spec fn maze_table() -> Map<Node, Seq<Transition>> {
    Map::new(|n: Node| n != Node::Door, |n: Node| moves_from(n))
}

/// The position of a room in the table.
pub open spec fn node_index(n: Node) -> int {
    match n {
        Node::Start => 0,
        Node::Door => 1,
        Node::Left4 => 2,
        Node::Top8 => 3,
        Node::Bottom9 => 4,
        Node::Right18 => 5,
        Node::Middle11 => 6,
        Node::Middle4 => 7,
    }
}

/// The key under which a room's transitions are stored.
fn node_key(n: Node) -> (k: u8)
    ensures
        k as int == node_index(n),
{
    match n {
        Node::Start => 0,
        Node::Door => 1,
        Node::Left4 => 2,
        Node::Top8 => 3,
        Node::Bottom9 => 4,
        Node::Right18 => 5,
        Node::Middle11 => 6,
        Node::Middle4 => 7,
    }
}

/// The transitions of each room, stored under the room's key.
pub struct Transitions {
    by_node: HashMap<u8, Vec<Transition>>,
}

impl View for Transitions {
    type V = Map<Node, Seq<Transition>>;

    closed spec fn view(&self) -> Map<Node, Seq<Transition>> {
        Map::new(|n: Node| n != Node::Door, |n: Node| self.by_node@[node_index(n) as u8]@)
    }
}

impl Transitions {
    /// Every room but the door has a list, and nothing else is stored.
    #[verifier::type_invariant]
    closed spec fn wf(self) -> bool {
        forall|k: u8| #[trigger] self.by_node@.contains_key(k) <==> (k < 8 && k != 1)
    }

    /// The transitions out of a room; the door has none.
    pub fn get(&self, node: Node) -> (r: Option<&Vec<Transition>>)
        ensures
            r is Some <==> self@.contains_key(node),
            r matches Some(v) ==> v@ == self@[node],
    {
        proof {
            use_type_invariant(self);
        }
        let key = node_key(node);
        self.by_node.get(&key)
    }
}

/// The maze's transition table.
pub fn build_transitions() -> (res: Transitions)
    ensures
        res@ == maze_table(),
{
    //transitions from start
    let start = vec![
        (Node::Bottom9, Move::Minus9),
        (Node::Middle4, Move::Minus4),
        (Node::Middle4, Move::Plus4),
        (Node::Left4, Move::Plus4),
    ];
    //transitions from 9
    let bnine = vec![
        (Node::Middle4, Move::Minus4),
        (Node::Bottom9, Move::Minus9),
        (Node::Bottom9, Move::Times9),
        (Node::Right18, Move::Times18),
        (Node::Right18, Move::Minus18),
        (Node::Middle11, Move::Minus11),
    ];
    //Transitions from middle 4
    let mfour = vec![
        (Node::Middle4, Move::Minus4),
        (Node::Middle4, Move::Plus4),
        (Node::Middle4, Move::Times4),
        (Node::Bottom9, Move::Minus9),
        (Node::Middle11, Move::Times11),
        (Node::Middle11, Move::Minus11),
        (Node::Left4, Move::Times4),
        (Node::Left4, Move::Plus4),
        (Node::Right18, Move::Minus18),
        (Node::Top8, Move::Times8),
    ];
    //Transitions from left 4
    let lfour = vec![
        (Node::Left4, Move::Plus4),
        (Node::Left4, Move::Times4),
        (Node::Top8, Move::Times8),
        (Node::Middle11, Move::Times11),
        (Node::Middle4, Move::Plus4),
        (Node::Middle4, Move::Times4),
    ];
    //All the transitions from the right 18
    let reightteen = vec![
        (Node::Right18, Move::Times18),
        (Node::Right18, Move::Minus18),
        (Node::Middle11, Move::Minus11),
        (Node::Middle11, Move::Times11),
        (Node::Bottom9, Move::Minus9),
        (Node::Bottom9, Move::Times9),
        (Node::Middle4, Move::Minus4),
        (Node::Door, Move::Identity),
    ];
    //All transitions from the middle 11
    let meleven = vec![
        (Node::Middle11, Move::Minus11),
        (Node::Middle11, Move::Times11),
        (Node::Right18, Move::Minus18),
        (Node::Right18, Move::Times18),
        (Node::Bottom9, Move::Minus9),
        (Node::Middle4, Move::Minus4),
        (Node::Middle4, Move::Times4),
        (Node::Left4, Move::Times4),
        (Node::Top8, Move::Times8),
        (Node::Top8, Move::Minus8),
        (Node::Door, Move::Identity),
        (Node::Door, Move::Minus1),
    ];
    //All transitions from top 8
    let teight = vec![
        (Node::Top8, Move::Minus8),
        (Node::Top8, Move::Times8),
        (Node::Left4, Move::Times4),
        (Node::Middle4, Move::Times4),
        (Node::Middle11, Move::Minus11),
        (Node::Middle11, Move::Times11),
        (Node::Door, Move::Minus1),
    ];
    let mut by_node: HashMap<u8, Vec<Transition>> = HashMap::new();
    by_node.insert(node_key(Node::Start), start);
    by_node.insert(node_key(Node::Bottom9), bnine);
    by_node.insert(node_key(Node::Middle4), mfour);
    by_node.insert(node_key(Node::Left4), lfour);
    by_node.insert(node_key(Node::Right18), reightteen);
    by_node.insert(node_key(Node::Middle11), meleven);
    by_node.insert(node_key(Node::Top8), teight);
    let res = Transitions { by_node };
    assert(res@ =~= maze_table());
    res
}

/// A partial walk: where it stands, how many transitions it took, the
/// running value, the rooms visited after the start, and the expression so far.
#[derive(Debug)]
pub struct State {
    pub current_node: Node,
    pub current_step: u32,
    pub expression_number: i64,
    pub path: Vec<Node>,
    pub expression: String,
}

/// A walk as a mathematical value.
#[verifier::ext_equal]
pub struct StateModel {
    pub node: Node,
    pub step: nat,
    pub number: int,
    pub path: Seq<Node>,
    pub expression: Seq<char>,
}

impl View for State {
    type V = StateModel;

    open spec fn view(&self) -> StateModel {
        StateModel {
            node: self.current_node,
            step: self.current_step as nat,
            number: self.expression_number as int,
            path: self.path@,
            expression: self.expression@,
        }
    }
}

/// The walk that has not moved yet.
pub open spec fn initial_model() -> StateModel {
    StateModel { node: Node::Start, step: 0, number: 22, path: seq![], expression: seq![] }
}

/// The walk after taking a transition.
pub open spec fn next_model(s: StateModel, t: Transition) -> StateModel {
    StateModel {
        node: t.0,
        step: s.step + 1,
        number: move_value(t.1, s.number),
        path: s.path.push(t.0),
        expression: s.expression + move_text(t.1),
    }
}

/// A walk that opens the door: it stands at the door, its value is 30, and
/// it took at most eight transitions.
pub open spec fn accepts(s: StateModel) -> bool {
    s.node == Node::Door && s.number == 30 && s.step <= 8
}

/// A walk that cannot lead to the door: its value went negative, or it has
/// one transition left in a room two transitions away from the door, or none
/// left away from the door.
pub open spec fn rejects(s: StateModel) -> bool {
    ||| s.number < 0
    ||| (s.step == 7 && (s.node == Node::Bottom9 || s.node == Node::Middle4 || s.node == Node::Left4))
    ||| (s.step == 8 && s.node != Node::Door)
}

/// The walks that open the door, in the order a depth-first search from `s`
/// finds them, trying transitions in table order.
pub open spec fn solutions(s: StateModel, table: Map<Node, Seq<Transition>>) -> Seq<StateModel>
    decreases 8 - s.step, 1int, 0int,
{
    if rejects(s) {
        seq![]
    } else if accepts(s) {
        seq![s]
    } else if s.step >= 8 || !table.contains_key(s.node) {
        seq![]
    } else {
        child_solutions(s, table, table[s.node], table[s.node].len() as int)
    }
}

/// The solutions found below `s` through the first `k` transitions of `ts`.
pub open spec fn child_solutions(
    s: StateModel,
    table: Map<Node, Seq<Transition>>,
    ts: Seq<Transition>,
    k: int,
) -> Seq<StateModel>
    decreases 8 - s.step, 0int, k,
{
    if k <= 0 || s.step >= 8 {
        seq![]
    } else {
        child_solutions(s, table, ts, k - 1) + solutions(next_model(s, ts[k - 1]), table)
    }
}

/// Every value the search from `s` computes fits in 64-bit signed integers.
pub open spec fn search_defined(s: StateModel, table: Map<Node, Seq<Transition>>) -> bool
    decreases 8 - s.step, 1int, 0int,
{
    if rejects(s) || accepts(s) || s.step >= 8 || !table.contains_key(s.node) {
        true
    } else {
        children_defined(s, table, table[s.node], table[s.node].len() as int)
    }
}

/// Every value the search below `s` through the first `k` transitions of
/// `ts` computes fits in 64-bit signed integers.
pub open spec fn children_defined(
    s: StateModel,
    table: Map<Node, Seq<Transition>>,
    ts: Seq<Transition>,
    k: int,
) -> bool
    decreases 8 - s.step, 0int, k,
{
    if k <= 0 || s.step >= 8 {
        true
    } else {
        &&& children_defined(s, table, ts, k - 1)
        &&& move_defined(ts[k - 1].1, s.number)
        &&& search_defined(next_model(s, ts[k - 1]), table)
    }
}

/// The views of a list of walks.
pub open spec fn views(s: Seq<State>) -> Seq<StateModel> {
    s.map_values(|x: State| x@)
}

impl State {
    /// The walk at the start.
    pub fn new() -> (s: State)
        ensures
            s@ == initial_model(),
    {
        let s = State {
            current_node: Node::Start,
            current_step: 0,
            expression_number: START_NUMBER,
            path: Vec::new(),
            expression: String::new(),
        };
        assert(s@ =~= initial_model());
        s
    }
}

/// A copy of a path.
fn copy_path(p: &Vec<Node>) -> (r: Vec<Node>)
    ensures
        r@ == p@,
{
    let mut r: Vec<Node> = Vec::new();
    let mut i: usize = 0;
    while i < p.len()
        invariant
            i <= p@.len(),
            r@ == p@.subrange(0, i as int),
        decreases p@.len() - i,
    {
        r.push(p[i]);
        i = i + 1;
        assert(r@ =~= p@.subrange(0, i as int));
    }
    assert(r@ =~= p@);
    r
}

/// The walk after taking a transition.
pub fn create_next(state: &State, trans: &Transition) -> (r: State)
    requires
        state.current_step < u32::MAX,
        move_defined(trans.1, state.expression_number as int),
    ensures
        r@ == next_model(state@, *trans),
{
    let (next_node, tran) = *trans;
    let mut new_path = copy_path(&state.path);
    new_path.push(next_node);
    let mut new_exp = state.expression.clone();
    new_exp.append(tran.label());
    let r = State {
        current_node: next_node,
        current_step: state.current_step + 1,
        path: new_path,
        expression: new_exp,
        expression_number: tran.apply(state.expression_number),
    };
    assert(r@ =~= next_model(state@, *trans));
    r
}

/// Whether the walk opens the door.
pub fn accept(state: &State) -> (r: bool)
    ensures
        r == accepts(state@),
{
    state.current_node == Node::Door && state.expression_number == TARGET_NUMBER
        && state.current_step <= MAX_TRANSITIONS
}

/// Whether the walk cannot lead to the door.
pub fn reject(state: &State) -> (r: bool)
    ensures
        r == rejects(state@),
{
    //If our calculation goes negative we reject
    if state.expression_number < 0 {
        return true;
    }
    //We have only one step left but we need at least two from these nodes
    //to make it to the end
    if state.current_step == MAX_TRANSITIONS - 1 && (state.current_node == Node::Bottom9
        || state.current_node == Node::Middle4 || state.current_node == Node::Left4) {
        return true;
    }
    //We have no more steps left and are not on the end
    if state.current_step == MAX_TRANSITIONS && state.current_node != Node::Door {
        return true;
    }
    false
}

/// Searches depth first from `state` and appends every walk that opens the
/// door to `sol`, in the order found. A walk past the last transition is
/// taken only where the search returns at once on it: it is rejected or
/// stands at the door.
pub fn backtrack(state: State, transitions: &Transitions, sol: &mut Vec<State>)
    requires
        state.current_step <= 8 || rejects(state@) || state.current_node == Node::Door,
        search_defined(state@, transitions@),
    ensures
        views(final(sol)@) == views(old(sol)@) + solutions(state@, transitions@),
    decreases 8 - state.current_step,
{
    if reject(&state) {
        assert(views(sol@) =~= views(old(sol)@) + solutions(state@, transitions@));
        return ;
    }
    if accept(&state) {
        let ghost sv = state@;
        sol.push(state);
        assert(views(sol@) =~= views(old(sol)@) + solutions(sv, transitions@));
        return ;
    }
    let ghost table = transitions@;
    let ghost s = state@;
    if let Some(pos_trans) = transitions.get(state.current_node) {
        assert(s.step < 8);
        let ghost ts = pos_trans@;
        let mut i: usize = 0;
        while i < pos_trans.len()
            invariant
                ts == pos_trans@,
                table == transitions@,
                s == state@,
                s.step < 8,
                table.contains_key(s.node),
                ts == table[s.node],
                !rejects(s),
                !accepts(s),
                search_defined(s, table),
                i <= ts.len(),
                views(sol@) == views(old(sol)@) + child_solutions(s, table, ts, i as int),
            decreases ts.len() - i,
        {
            proof {
                lemma_children_defined_prefix(s, table, ts, ts.len() as int, i as int + 1);
            }
            let new_state = create_next(&state, &pos_trans[i]);
            let ghost before = sol@;
            backtrack(new_state, transitions, sol);
            assert(views(sol@) =~= views(old(sol)@) + child_solutions(s, table, ts, i as int + 1));
            i = i + 1;
        }
    } else {
        assert(views(sol@) =~= views(old(sol)@) + solutions(state@, transitions@));
    }
}

/// What `children_defined` says of all the transitions says of the first `j`.
proof fn lemma_children_defined_prefix(
    s: StateModel,
    table: Map<Node, Seq<Transition>>,
    ts: Seq<Transition>,
    k: int,
    j: int,
)
    requires
        children_defined(s, table, ts, k),
        0 <= j <= k,
    ensures
        children_defined(s, table, ts, j),
        s.step < 8 && 0 < j ==> move_defined(ts[j - 1].1, s.number) && search_defined(
            next_model(s, ts[j - 1]),
            table,
        ),
    decreases k - j,
{
    if j < k {
        lemma_children_defined_prefix(s, table, ts, k - 1, j);
    }
}

/// `18^n`.
pub open spec fn pow18(n: nat) -> nat
    decreases n,
{
    if n == 0 {
        1
    } else {
        18 * pow18((n - 1) as nat)
    }
}

/// A bound on a walk's value under which the whole search from it stays
/// within 64-bit signed integers: no operation multiplies by more than 18 or
/// adds more than 4.
pub open spec fn value_in_bound(s: StateModel) -> bool {
    &&& s.step <= 8
    &&& -18 <= s.number
    &&& (s.number + 4) * pow18((8 - s.step) as nat) <= i64::MAX
}

proof fn lemma_pow18_positive(n: nat)
    ensures
        pow18(n) >= 1,
    decreases n,
{
    if n > 0 {
        lemma_pow18_positive((n - 1) as nat);
    }
}

/// From a walk within the bound, any transition computes a value that fits
/// and leads to a walk within the bound.
proof fn lemma_move_in_bound(s: StateModel, t: Transition)
    requires
        value_in_bound(s),
        s.number >= 0,
        s.step < 8,
    ensures
        move_defined(t.1, s.number),
        value_in_bound(next_model(s, t)),
{
    let x = s.number;
    let p = pow18((7 - s.step) as nat);
    lemma_pow18_positive((7 - s.step) as nat);
    assert(pow18((8 - s.step) as nat) == 18 * p);
    let v = move_value(t.1, x);
    assert(-18 <= v && v + 4 <= 18 * (x + 4));
    assert((v + 4) * p <= 18 * (x + 4) * p) by (nonlinear_arith)
        requires
            v + 4 <= 18 * (x + 4),
            p >= 1,
            v + 4 >= -14,
            x >= 0,
    ;
    assert(18 * (x + 4) <= (x + 4) * (18 * p)) by (nonlinear_arith)
        requires
            p >= 1,
            x >= 0,
    ;
    assert(18 * (x + 4) * p == (x + 4) * (18 * p)) by (nonlinear_arith);
}

/// A search from a walk within the bound computes only values that fit.
pub proof fn lemma_search_defined(s: StateModel, table: Map<Node, Seq<Transition>>)
    requires
        value_in_bound(s),
    ensures
        search_defined(s, table),
    decreases 8 - s.step, 1int, 0int,
{
    if !(rejects(s) || accepts(s) || s.step >= 8 || !table.contains_key(s.node)) {
        lemma_children_defined(s, table, table[s.node], table[s.node].len() as int);
    }
}

/// The children of a walk within the bound compute only values that fit.
proof fn lemma_children_defined(
    s: StateModel,
    table: Map<Node, Seq<Transition>>,
    ts: Seq<Transition>,
    k: int,
)
    requires
        value_in_bound(s),
        !rejects(s),
    ensures
        children_defined(s, table, ts, k),
    decreases 8 - s.step, 0int, k,
{
    if k > 0 && s.step < 8 {
        lemma_children_defined(s, table, ts, k - 1);
        lemma_move_in_bound(s, ts[k - 1]);
        lemma_search_defined(next_model(s, ts[k - 1]), table);
    }
}

/// Searches the maze from the start and returns every walk that opens the
/// door, in the order found.
pub fn solve_maze() -> (res: Vec<State>)
    ensures
        views(res@) == solutions(initial_model(), maze_table()),
{
    let transitions = build_transitions();
    let state = State::new();
    let mut found = Vec::new();
    proof {
        reveal_with_fuel(pow18, 9);
        assert(pow18(8) == 11019960576);
        assert(((8 - initial_model().step) as nat) == 8);
        assert((initial_model().number + 4) * 11019960576 == 286518974976);
        lemma_search_defined(initial_model(), maze_table());
    }
    backtrack(state, &transitions, &mut found);
    assert(views(found@) =~= views(Seq::<State>::empty()) + solutions(initial_model(), maze_table()));
    found
}

/// The position of the first walk with the fewest transitions, or `None`
/// when there is no walk.
pub fn shortest_solution(sols: &Vec<State>) -> (r: Option<usize>)
    ensures
        r is None <==> sols@.len() == 0,
        r matches Some(i) ==> {
            &&& i < sols@.len()
            &&& forall|j: int|
                0 <= j < sols@.len() ==> sols@[j].current_step >= sols@[i as int].current_step
            &&& forall|j: int| 0 <= j < i ==> sols@[j].current_step > sols@[i as int].current_step
        },
{
    if sols.len() == 0 {
        return None;
    }
    let mut best: usize = 0;
    let mut i: usize = 1;
    while i < sols.len()
        invariant
            0 <= best < i <= sols@.len(),
            forall|j: int| 0 <= j < i ==> sols@[j].current_step >= sols@[best as int].current_step,
            forall|j: int| 0 <= j < best ==> sols@[j].current_step > sols@[best as int].current_step,
        decreases sols@.len() - i,
    {
        if sols[i].current_step < sols[best].current_step {
            best = i;
        }
        i = i + 1;
    }
    Some(best)
}

/// Every walk the search reports opens the door, and its path grew by one
/// room per transition taken.
pub proof fn law_solutions_open_door(s: StateModel, table: Map<Node, Seq<Transition>>)
    ensures
        forall|i: int|
            0 <= i < solutions(s, table).len() ==> {
                let x = #[trigger] solutions(s, table)[i];
                &&& accepts(x)
                &&& x.path.len() - x.step == s.path.len() - s.step
            },
    decreases 8 - s.step, 1int, 0int,
{
    if !(rejects(s) || accepts(s) || s.step >= 8 || !table.contains_key(s.node)) {
        law_children_open_door(s, table, table[s.node], table[s.node].len() as int);
    }
}

/// What `law_solutions_open_door` says, for the walks found below `s`
/// through the first `k` transitions of `ts`.
proof fn law_children_open_door(
    s: StateModel,
    table: Map<Node, Seq<Transition>>,
    ts: Seq<Transition>,
    k: int,
)
    ensures
        forall|i: int|
            0 <= i < child_solutions(s, table, ts, k).len() ==> {
                let x = #[trigger] child_solutions(s, table, ts, k)[i];
                &&& accepts(x)
                &&& x.path.len() - x.step == s.path.len() - s.step
            },
    decreases 8 - s.step, 0int, k,
{
    if k > 0 && s.step < 8 {
        law_children_open_door(s, table, ts, k - 1);
        law_solutions_open_door(next_model(s, ts[k - 1]), table);
        let left = child_solutions(s, table, ts, k - 1);
        let right = solutions(next_model(s, ts[k - 1]), table);
        assert forall|i: int| 0 <= i < child_solutions(s, table, ts, k).len() implies {
            let x = #[trigger] child_solutions(s, table, ts, k)[i];
            &&& accepts(x)
            &&& x.path.len() - x.step == s.path.len() - s.step
        } by {
            if i < left.len() {
                assert(child_solutions(s, table, ts, k)[i] == left[i]);
            } else {
                assert(child_solutions(s, table, ts, k)[i] == right[i - left.len()]);
            }
        }
    }
}

/// The walk after taking the transitions `ts` in order.
pub open spec fn walk_end(s: StateModel, ts: Seq<Transition>) -> StateModel
    decreases ts.len(),
{
    if ts.len() == 0 {
        s
    } else {
        walk_end(next_model(s, ts[0]), ts.drop_first())
    }
}

/// Taking the transitions `ts` from `s` is a way the search can go: every
/// walk on the way is neither rejected nor accepted, has a transition left,
/// and the next transition is one of its room's; the last walk opens the door.
pub open spec fn search_follows(
    s: StateModel,
    table: Map<Node, Seq<Transition>>,
    ts: Seq<Transition>,
) -> bool
    decreases ts.len(),
{
    if ts.len() == 0 {
        accepts(s) && !rejects(s)
    } else {
        &&& !rejects(s)
        &&& !accepts(s)
        &&& s.step < 8
        &&& table.contains_key(s.node)
        &&& table[s.node].contains(ts[0])
        &&& search_follows(next_model(s, ts[0]), table, ts.drop_first())
    }
}

/// The walks found below `s` through the first `k` transitions of `ts`
/// include every walk found after taking one of them.
proof fn lemma_child_solutions_include(
    s: StateModel,
    table: Map<Node, Seq<Transition>>,
    ts: Seq<Transition>,
    k: int,
    q: int,
    x: StateModel,
)
    requires
        0 <= q < k <= ts.len(),
        s.step < 8,
        solutions(next_model(s, ts[q]), table).contains(x),
    ensures
        child_solutions(s, table, ts, k).contains(x),
    decreases k,
{
    let left = child_solutions(s, table, ts, k - 1);
    let right = solutions(next_model(s, ts[k - 1]), table);
    assert(child_solutions(s, table, ts, k) == left + right);
    if q == k - 1 {
        let i = choose|i: int| 0 <= i < right.len() && right[i] == x;
        assert((left + right)[left.len() + i] == x);
    } else {
        lemma_child_solutions_include(s, table, ts, k - 1, q, x);
        let i = choose|i: int| 0 <= i < left.len() && left[i] == x;
        assert((left + right)[i] == x);
    }
}

/// The search finds every walk that opens the door along a way it can go.
pub proof fn law_search_is_complete(
    s: StateModel,
    table: Map<Node, Seq<Transition>>,
    ts: Seq<Transition>,
)
    requires
        search_follows(s, table, ts),
    ensures
        solutions(s, table).contains(walk_end(s, ts)),
    decreases ts.len(),
{
    if ts.len() == 0 {
        assert(solutions(s, table)[0] == s);
    } else {
        let n = next_model(s, ts[0]);
        law_search_is_complete(n, table, ts.drop_first());
        let tl = table[s.node];
        let q = choose|q: int| 0 <= q < tl.len() && tl[q] == ts[0];
        lemma_child_solutions_include(s, table, tl, tl.len() as int, q, walk_end(s, ts));
    }
}

/// Every walk the search reports is reached along a way the search can go:
/// from `s`, through walks that are neither rejected nor accepted, each
/// transition one of its room's.
pub proof fn law_search_is_sound(s: StateModel, table: Map<Node, Seq<Transition>>)
    ensures
        forall|x: StateModel|
            #[trigger] solutions(s, table).contains(x) ==> exists|ts: Seq<Transition>|
                search_follows(s, table, ts) && walk_end(s, ts) == x,
    decreases 8 - s.step, 1int, 0int,
{
    if rejects(s) {
    } else if accepts(s) {
        assert forall|x: StateModel| #[trigger] solutions(s, table).contains(x) implies exists|
            ts: Seq<Transition>,
        | search_follows(s, table, ts) && walk_end(s, ts) == x by {
            assert(solutions(s, table)[0] == s);
            assert(search_follows(s, table, Seq::<Transition>::empty()));
            assert(walk_end(s, Seq::<Transition>::empty()) == x);
        }
    } else if s.step >= 8 || !table.contains_key(s.node) {
    } else {
        let ts = table[s.node];
        lemma_children_sound(s, table, ts, ts.len() as int);
        assert(solutions(s, table) == child_solutions(s, table, ts, ts.len() as int));
    }
}

/// What `law_search_is_sound` says, for the walks found below `s` through
/// the first `k` transitions of its room.
proof fn lemma_children_sound(
    s: StateModel,
    table: Map<Node, Seq<Transition>>,
    ts: Seq<Transition>,
    k: int,
)
    requires
        table.contains_key(s.node),
        ts == table[s.node],
        0 <= k <= ts.len(),
        !rejects(s),
        !accepts(s),
        s.step < 8,
    ensures
        forall|x: StateModel|
            #[trigger] child_solutions(s, table, ts, k).contains(x) ==> exists|w: Seq<Transition>|
                search_follows(s, table, w) && walk_end(s, w) == x,
    decreases 8 - s.step, 0int, k,
{
    if k > 0 {
        lemma_children_sound(s, table, ts, k - 1);
        let n = next_model(s, ts[k - 1]);
        law_search_is_sound(n, table);
        let left = child_solutions(s, table, ts, k - 1);
        let right = solutions(n, table);
        assert(child_solutions(s, table, ts, k) == left + right);
        assert forall|x: StateModel| #[trigger]
            child_solutions(s, table, ts, k).contains(x) implies exists|w: Seq<Transition>|
            search_follows(s, table, w) && walk_end(s, w) == x by {
            let i = choose|i: int|
                0 <= i < (left + right).len() && (left + right)[i] == x;
            if i < left.len() {
                assert(left.contains(x)) by {
                    assert(left[i] == x);
                }
            } else {
                assert(right.contains(x)) by {
                    assert(right[i - left.len()] == x);
                }
                let w1 = choose|w1: Seq<Transition>|
                    search_follows(n, table, w1) && walk_end(n, w1) == x;
                let w = seq![ts[k - 1]] + w1;
                assert(w.drop_first() =~= w1);
                assert(w[0] == ts[k - 1]);
                assert(ts.contains(ts[k - 1]));
                assert(search_follows(s, table, w));
                assert(walk_end(s, w) == x);
            }
        }
    }
}

} // verus!
