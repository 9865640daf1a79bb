//! The outputs of a dataflow, and the order in which they are shown.

use vstd::prelude::*;
#[allow(unused_imports)]
use vstd::utf8::encode_utf8;

verus! {

/// An output of a node.
#[derive(Debug)]
pub struct TopicIdentifier {
    pub node_id: String,
    pub data_id: String,
}

/// What a topic identifier says.
pub ghost struct TopicName {
    pub node_id: Seq<char>,
    pub data_id: Seq<char>,
}

impl View for TopicIdentifier {
    type V = TopicName;

    open spec fn view(&self) -> TopicName {
        TopicName { node_id: self.node_id@, data_id: self.data_id@ }
    }
}

/// The name that stands for all outputs together.
pub open spec fn all_name() -> TopicName {
    TopicName { node_id: "<ALL>"@, data_id: "*"@ }
}

/// Whether `a` stands before `b` in the lexicographic order of byte strings.
pub open spec fn bytes_before(a: Seq<u8>, b: Seq<u8>) -> bool
    decreases a.len(),
{
    if b.len() == 0 {
        false
    } else if a.len() == 0 {
        true
    } else if a[0] == b[0] {
        bytes_before(a.drop_first(), b.drop_first())
    } else {
        a[0] < b[0]
    }
}

/// Whether `a` stands before `b` in the order of strings, which is that of
/// their bytes.
pub open spec fn text_before(a: Seq<char>, b: Seq<char>) -> bool {
    bytes_before(encode_utf8(a), encode_utf8(b))
}

/// Whether `a` is shown before `b`: by node, and among the outputs of one node
/// by output.
pub open spec fn name_before(a: TopicName, b: TopicName) -> bool {
    text_before(a.node_id, b.node_id) || (a.node_id == b.node_id && text_before(
        a.data_id,
        b.data_id,
    ))
}

proof fn lemma_bytes_total(a: Seq<u8>, b: Seq<u8>)
    ensures
        a == b || bytes_before(a, b) || bytes_before(b, a),
        a == b ==> !bytes_before(a, b),
        !(bytes_before(a, b) && bytes_before(b, a)),
    decreases a.len(),
{
    if a.len() > 0 && b.len() > 0 && a[0] == b[0] {
        lemma_bytes_total(a.drop_first(), b.drop_first());
        if a.drop_first() == b.drop_first() {
            assert(a =~= seq![a[0]] + a.drop_first());
            assert(b =~= seq![b[0]] + b.drop_first());
        }
    } else if a.len() == 0 && b.len() == 0 {
        assert(a =~= b);
    }
}

proof fn lemma_bytes_transitive(a: Seq<u8>, b: Seq<u8>, c: Seq<u8>)
    requires
        bytes_before(a, b),
        bytes_before(b, c),
    ensures
        bytes_before(a, c),
    decreases a.len(),
{
    if a.len() > 0 && a[0] == b[0] && b[0] == c[0] {
        lemma_bytes_transitive(a.drop_first(), b.drop_first(), c.drop_first());
    }
}

proof fn lemma_text_total(a: Seq<char>, b: Seq<char>)
    ensures
        a == b || text_before(a, b) || text_before(b, a),
        a == b ==> !text_before(a, b),
        !(text_before(a, b) && text_before(b, a)),
{
    lemma_bytes_total(encode_utf8(a), encode_utf8(b));
    if encode_utf8(a) == encode_utf8(b) {
        vstd::utf8::encode_utf8_decode_utf8(a);
        vstd::utf8::encode_utf8_decode_utf8(b);
    }
}

/// Of two topics exactly one holds: they are the same, the first is shown
/// before the second, or the second before the first.
pub proof fn law_topic_order_is_total(a: TopicName, b: TopicName)
    ensures
        a == b || name_before(a, b) || name_before(b, a),
        a == b ==> !name_before(a, b),
        !(name_before(a, b) && name_before(b, a)),
{
    lemma_text_total(a.node_id, b.node_id);
    lemma_text_total(a.data_id, b.data_id);
}

/// What is shown before a topic is shown before everything that follows it.
pub proof fn law_topic_order_is_transitive(a: TopicName, b: TopicName, c: TopicName)
    requires
        name_before(a, b),
        name_before(b, c),
    ensures
        name_before(a, c),
{
    lemma_text_total(a.node_id, b.node_id);
    lemma_text_total(b.node_id, c.node_id);
    if text_before(a.node_id, b.node_id) && text_before(b.node_id, c.node_id) {
        lemma_bytes_transitive(
            encode_utf8(a.node_id),
            encode_utf8(b.node_id),
            encode_utf8(c.node_id),
        );
    }
    if a.node_id == b.node_id && b.node_id == c.node_id {
        lemma_bytes_transitive(
            encode_utf8(a.data_id),
            encode_utf8(b.data_id),
            encode_utf8(c.data_id),
        );
    }
}

/// The names of the topics of a list.
pub open spec fn names(topics: Seq<TopicIdentifier>) -> Seq<TopicName> {
    topics.map_values(|topic: TopicIdentifier| topic@)
}

/// Whether each name of the list is shown before all that follow it.
pub open spec fn in_order(list: Seq<TopicName>) -> bool {
    forall|i: int, j: int| 0 <= i < j < list.len() ==> #[trigger] name_before(list[i], list[j])
}

/// Whether `rows` is how `topics` are shown: first the entry for all of them
/// together, then each topic once, in order. A topic that is called like the
/// first entry has no entry of its own.
pub open spec fn shows(rows: Seq<TopicName>, topics: Seq<TopicName>) -> bool {
    &&& rows.len() > 0
    &&& rows[0] == all_name()
    &&& in_order(rows.skip(1))
    &&& forall|name: TopicName|
        #![trigger rows.skip(1).contains(name)]
        #![trigger topics.contains(name)]
        rows.skip(1).contains(name) <==> topics.contains(name) && name != all_name()
}

/// The order in which topics are shown follows from which topics there are.
pub proof fn law_shown_order_is_unique(
    rows: Seq<TopicName>,
    other: Seq<TopicName>,
    topics: Seq<TopicName>,
)
    requires
        shows(rows, topics),
        shows(other, topics),
    ensures
        rows == other,
{
    assert forall|name: TopicName|
        #![trigger rows.skip(1).contains(name)]
        #![trigger other.skip(1).contains(name)]
        rows.skip(1).contains(name) <==> other.skip(1).contains(name) by {
        assert(rows.skip(1).contains(name) <==> topics.contains(name) && name != all_name());
    }
    lemma_order_is_unique(rows.skip(1), other.skip(1));
    assert(rows =~= seq![all_name()] + rows.skip(1));
    assert(other =~= seq![all_name()] + other.skip(1));
}

proof fn lemma_order_is_unique(a: Seq<TopicName>, b: Seq<TopicName>)
    requires
        in_order(a),
        in_order(b),
        forall|name: TopicName|
            #![trigger a.contains(name)]
            #![trigger b.contains(name)]
            a.contains(name) <==> b.contains(name),
    ensures
        a == b,
    decreases a.len(),
{
    if a.len() == 0 {
        if b.len() > 0 {
            assert(b.contains(b[0]));
        }
        assert(a =~= b);
    } else {
        assert(a.contains(a[0]));
        let i = choose|i: int| 0 <= i < b.len() && b[i] == a[0];
        assert(b.contains(b[0]));
        let j = choose|j: int| 0 <= j < a.len() && a[j] == b[0];
        law_topic_order_is_total(a[0], b[0]);
        if i > 0 {
            assert(name_before(b[0], b[i]));
            if j > 0 {
                assert(name_before(a[0], a[j]));
            }
        }
        assert(a[0] == b[0]);
        let first = a[0];
        let a1 = a.drop_first();
        let b1 = b.drop_first();
        lemma_tail_in_order(a);
        lemma_tail_in_order(b);
        assert forall|name: TopicName|
            #![trigger a1.contains(name)]
            #![trigger b1.contains(name)]
            a1.contains(name) <==> b1.contains(name) by {
            assert(a.contains(name) <==> b.contains(name));
        }
        lemma_order_is_unique(a1, b1);
        assert(a =~= seq![first] + a1);
        assert(b =~= seq![first] + b1);
    }
}

proof fn lemma_tail_in_order(list: Seq<TopicName>)
    requires
        in_order(list),
        list.len() > 0,
    ensures
        in_order(list.drop_first()),
        forall|name: TopicName|
            #![trigger list.drop_first().contains(name)]
            #![trigger list.contains(name)]
            list.drop_first().contains(name) <==> list.contains(name) && name != list[0],
{
    let tail = list.drop_first();
    assert forall|i: int, j: int| 0 <= i < j < tail.len() implies #[trigger] name_before(
        tail[i],
        tail[j],
    ) by {
        assert(name_before(list[i + 1], list[j + 1]));
    }
    assert forall|name: TopicName|
        #![trigger tail.contains(name)]
        #![trigger list.contains(name)]
        tail.contains(name) <==> list.contains(name) && name != list[0] by {
        if tail.contains(name) {
            let i = choose|i: int| 0 <= i < tail.len() && tail[i] == name;
            assert(list[i + 1] == name);
            assert(name_before(list[0], list[i + 1]));
            law_topic_order_is_total(list[0], name);
        }
        if list.contains(name) && name != list[0] {
            let i = choose|i: int| 0 <= i < list.len() && list[i] == name;
            assert(tail[i - 1] == name);
        }
    }
}

/// The outcome of comparing two topics.
#[derive(Debug, Clone, Copy, PartialEq, Eq, Structural)]
enum Side {
    Before,
    Same,
    After,
}

fn text_side(a: &str, b: &str) -> (side: Side)
    ensures
        side == Side::Before <==> text_before(a@, b@),
        side == Side::Same <==> a@ == b@,
        side == Side::After <==> text_before(b@, a@),
{
    let left = a.as_bytes();
    let right = b.as_bytes();
    proof {
        lemma_text_total(a@, b@);
        assert(left@.skip(0) =~= left@);
        assert(right@.skip(0) =~= right@);
    }
    let mut i: usize = 0;
    while i < left.len() && i < right.len()
        invariant
            left@ == encode_utf8(a@),
            right@ == encode_utf8(b@),
            i <= left.len(),
            i <= right.len(),
            left@.take(i as int) == right@.take(i as int),
            text_before(a@, b@) == bytes_before(left@.skip(i as int), right@.skip(i as int)),
            text_before(b@, a@) == bytes_before(right@.skip(i as int), left@.skip(i as int)),
            a@ == b@ ==> !text_before(a@, b@) && !text_before(b@, a@),
            a@ == b@ || text_before(a@, b@) || text_before(b@, a@),
            !(text_before(a@, b@) && text_before(b@, a@)),
        decreases left.len() - i,
    {
        proof {
            assert(left@.skip(i as int).drop_first() =~= left@.skip(i + 1));
            assert(right@.skip(i as int).drop_first() =~= right@.skip(i + 1));
            assert(left@.skip(i as int)[0] == left@[i as int]);
            assert(right@.skip(i as int)[0] == right@[i as int]);
        }
        if left[i] < right[i] {
            return Side::Before;
        }
        if left[i] > right[i] {
            return Side::After;
        }
        proof {
            assert(left@.take(i + 1) =~= left@.take(i as int).push(left@[i as int]));
            assert(right@.take(i + 1) =~= right@.take(i as int).push(right@[i as int]));
        }
        i += 1;
    }
    if i < right.len() {
        Side::Before
    } else if i < left.len() {
        Side::After
    } else {
        proof {
            assert(left@.take(i as int) =~= left@);
            assert(right@.take(i as int) =~= right@);
            vstd::utf8::encode_utf8_decode_utf8(a@);
            vstd::utf8::encode_utf8_decode_utf8(b@);
        }
        Side::Same
    }
}

impl TopicIdentifier {
    /// The name under which a topic is shown.
    pub open spec fn text(self) -> Seq<char> {
        self.node_id@ + "/"@ + self.data_id@
    }

    /// Writes the name under which the topic is shown.
    pub fn label(&self) -> (label: String)
        ensures
            label@ == self.text(),
            label@ == self.node_id@ + "/"@ + self.data_id@,
    {
        let mut label: String = self.node_id.clone();
        label.append("/");
        label.append(self.data_id.as_str());
        label
    }

    /// The identifier that stands for all outputs together.
    pub(crate) fn all() -> (topic: TopicIdentifier)
        ensures
            topic@ == all_name(),
            topic.node_id@ == "<ALL>"@,
            topic.data_id@ == "*"@,
    {
        TopicIdentifier { node_id: "<ALL>".to_owned(), data_id: "*".to_owned() }
    }

    /// A second identifier of the same topic.
    pub(crate) fn copied(&self) -> (topic: TopicIdentifier)
        ensures
            topic@ == self@,
            topic.node_id@ == self.node_id@,
            topic.data_id@ == self.data_id@,
    {
        TopicIdentifier { node_id: self.node_id.clone(), data_id: self.data_id.clone() }
    }

    /// Whether both identify one topic.
    pub(crate) fn same(&self, other: &TopicIdentifier) -> (same: bool)
        ensures
            same == (self@ == other@),
            same == (self.node_id@ == other.node_id@ && self.data_id@ == other.data_id@),
    {
        self.node_id == other.node_id && self.data_id == other.data_id
    }

    fn side(&self, other: &TopicIdentifier) -> (side: Side)
        ensures
            side == Side::Before <==> name_before(self@, other@),
            side == Side::Same <==> self@ == other@,
            side == Side::After <==> name_before(other@, self@),
    {
        proof {
            law_topic_order_is_total(self@, other@);
            lemma_text_total(self.node_id@, other.node_id@);
        }
        match text_side(self.node_id.as_str(), other.node_id.as_str()) {
            Side::Before => Side::Before,
            Side::After => Side::After,
            Side::Same => text_side(self.data_id.as_str(), other.data_id.as_str()),
        }
    }
}

proof fn lemma_insert_in_order(list: Seq<TopicName>, at: int, name: TopicName)
    requires
        in_order(list),
        0 <= at <= list.len(),
        forall|i: int| 0 <= i < at ==> name_before(#[trigger] list[i], name),
        at < list.len() ==> name_before(name, list[at]),
    ensures
        in_order(list.insert(at, name)),
        forall|other: TopicName|
            #![trigger list.insert(at, name).contains(other)]
            #![trigger list.contains(other)]
            list.insert(at, name).contains(other) <==> list.contains(other) || other == name,
{
    let longer = list.insert(at, name);
    assert forall|i: int, j: int| 0 <= i < j < longer.len() implies #[trigger] name_before(
        longer[i],
        longer[j],
    ) by {
        if i == at {
            if j > at + 1 {
                assert(name_before(list[at], list[j - 1]));
                law_topic_order_is_transitive(name, list[at], list[j - 1]);
            }
        } else {
            let k = if i < at {
                i
            } else {
                i - 1
            };
            if j == at {
                assert(name_before(list[i], name));
            } else if j < at {
                assert(name_before(list[k], list[j]));
            } else {
                assert(name_before(list[k], list[j - 1]));
            }
        }
    }
    assert forall|other: TopicName|
        longer.contains(other) <==> list.contains(other) || other == name by {
        if longer.contains(other) {
            let i = choose|i: int| 0 <= i < longer.len() && longer[i] == other;
            if i < at {
                assert(list[i] == other);
            } else if i > at {
                assert(list[i - 1] == other);
            }
        }
        if list.contains(other) {
            let i = choose|i: int| 0 <= i < list.len() && list[i] == other;
            assert(longer[if i < at {
                i
            } else {
                i + 1
            }] == other);
        }
        assert(longer[at] == name);
    }
}

/// Puts a topic into its place among topics in order, unless it is there.
fn insert_topic(sorted: &mut Vec<TopicIdentifier>, topic: &TopicIdentifier)
    requires
        in_order(names(old(sorted)@)),
    ensures
        in_order(names(final(sorted)@)),
        forall|name: TopicName|
            #![trigger names(final(sorted)@).contains(name)]
            #![trigger names(old(sorted)@).contains(name)]
            names(final(sorted)@).contains(name) <==> names(old(sorted)@).contains(name) || name
                == topic@,
{
    let mut at: usize = 0;
    while at < sorted.len()
        invariant
            at <= sorted.len(),
            sorted@ == old(sorted)@,
            in_order(names(sorted@)),
            forall|i: int| 0 <= i < at ==> name_before(#[trigger] names(sorted@)[i], topic@),
        ensures
            at <= sorted.len(),
            sorted@ == old(sorted)@,
            in_order(names(sorted@)),
            forall|i: int| 0 <= i < at ==> name_before(#[trigger] names(sorted@)[i], topic@),
            at < sorted.len() ==> name_before(topic@, names(sorted@)[at as int]),
        decreases sorted.len() - at,
    {
        match sorted[at].side(topic) {
            Side::Before => {
                at += 1;
            },
            Side::Same => {
                assert(names(sorted@)[at as int] == topic@);
                return ;
            },
            Side::After => {
                break;
            },
        }
    }
    let copy = topic.copied();
    let ghost before = names(sorted@);
    sorted.insert(at, copy);
    proof {
        lemma_insert_in_order(before, at as int, topic@);
        assert(names(sorted@) =~= before.insert(at as int, topic@));
    }
}

/// Puts the topics into the order in which they are shown.
pub fn ordered_topics(topics: &Vec<TopicIdentifier>) -> (rows: Vec<TopicIdentifier>)
    ensures
        shows(names(rows@), names(topics@)),
        rows@.len() > 0,
        rows@[0].node_id@ == "<ALL>"@,
        rows@[0].data_id@ == "*"@,
        forall|i: int, j: int|
            1 <= i < j < rows@.len() ==> name_before((#[trigger] rows@[i])@, (#[trigger] rows@[j])@),
        forall|i: int|
            1 <= i < rows@.len() ==> names(topics@).contains((#[trigger] rows@[i])@)
                && rows@[i]@ != rows@[0]@,
        forall|j: int|
            0 <= j < topics@.len() && (#[trigger] topics@[j])@ != rows@[0]@ ==> names(
                rows@,
            ).skip(1).contains(topics@[j]@),
{
    let all = TopicIdentifier::all();
    let mut rows: Vec<TopicIdentifier> = Vec::new();
    let mut i: usize = 0;
    while i < topics.len()
        invariant
            i <= topics.len(),
            all@ == all_name(),
            in_order(names(rows@)),
            forall|name: TopicName|
                #![trigger names(rows@).contains(name)]
                #![trigger names(topics@).take(i as int).contains(name)]
                names(rows@).contains(name) <==> names(topics@).take(i as int).contains(name)
                    && name != all_name(),
        decreases topics.len() - i,
    {
        let topic: &TopicIdentifier = &topics[i];
        let ghost before = names(rows@);
        if !topic.same(&all) {
            insert_topic(&mut rows, topic);
        }
        proof {
            let seen = names(topics@).take(i as int);
            let now = names(topics@).take(i + 1);
            assert(now =~= seen.push(topic@));
            assert forall|name: TopicName|
                #![trigger names(rows@).contains(name)]
                #![trigger now.contains(name)]
                names(rows@).contains(name) <==> now.contains(name) && name != all_name() by {
                assert(now[i as int] == topic@);
                if seen.contains(name) {
                    let k = choose|k: int| 0 <= k < seen.len() && seen[k] == name;
                    assert(now[k] == name);
                }
                if now.contains(name) && name != topic@ {
                    let k = choose|k: int| 0 <= k < now.len() && now[k] == name;
                    assert(seen[k] == name);
                }
                assert(before.contains(name) <==> seen.contains(name) && name != all_name());
            }
        }
        i += 1;
    }
    let ghost sorted = names(rows@);
    assert(names(topics@).take(i as int) =~= names(topics@));
    rows.insert(0, all);
    assert(names(rows@).skip(1) =~= sorted);
    assert(names(rows@)[0] == all_name());
    proof {
        law_shown_rows_are_all_then_the_topics_in_order(names(rows@), names(topics@));
        assert forall|i: int, j: int| 1 <= i < j < rows@.len() implies name_before(
            (#[trigger] rows@[i])@,
            (#[trigger] rows@[j])@,
        ) by {
            assert(name_before(names(rows@)[i], names(rows@)[j]));
        }
        assert forall|i: int| 1 <= i < rows@.len() implies names(topics@).contains(
            (#[trigger] rows@[i])@,
        ) && rows@[i]@ != rows@[0]@ by {
            assert(names(topics@).contains(names(rows@)[i]));
        }
        assert forall|j: int|
            0 <= j < topics@.len() && (#[trigger] topics@[j])@ != rows@[0]@ implies names(
            rows@,
        ).skip(1).contains(topics@[j]@) by {
            assert(names(topics@)[j] == topics@[j]@);
        }
    }
    rows
}

/// The names of a list of topics are those of its topics, one for one.
pub proof fn law_names_are_those_of_the_topics(topics: Seq<TopicIdentifier>)
    ensures
        names(topics).len() == topics.len(),
        forall|i: int|
            #![trigger names(topics)[i]]
            #![trigger topics[i]]
            0 <= i < topics.len() ==> names(topics)[i].node_id == topics[i].node_id@
                && names(topics)[i].data_id == topics[i].data_id@,
{
}

/// Byte strings are ordered by the first byte in which they differ, and a string
/// stands before those that it begins.
pub proof fn law_byte_order_is_lexicographic(a: Seq<u8>, b: Seq<u8>)
    ensures
        bytes_before(a, b) <==> exists|k: int|
            #![trigger a.take(k)]
            {
                &&& 0 <= k <= a.len()
                &&& k < b.len()
                &&& a.take(k) == b.take(k)
                &&& k == a.len() || a[k] < b[k]
            },
{
    if bytes_before(a, b) {
        let k = lemma_first_difference(a, b);
        assert(a.take(k) == b.take(k));
    }
    if exists|k: int|
        #![trigger a.take(k)]
        0 <= k <= a.len() && k < b.len() && a.take(k) == b.take(k) && (k == a.len() || a[k]
            < b[k]) {
        let k = choose|k: int|
            #![trigger a.take(k)]
            0 <= k <= a.len() && k < b.len() && a.take(k) == b.take(k) && (k == a.len() || a[k]
                < b[k]);
        lemma_difference_decides(a, b, k);
    }
}

proof fn lemma_first_difference(a: Seq<u8>, b: Seq<u8>) -> (k: int)
    requires
        bytes_before(a, b),
    ensures
        0 <= k <= a.len(),
        k < b.len(),
        a.take(k) == b.take(k),
        k == a.len() || a[k] < b[k],
    decreases a.len(),
{
    if a.len() > 0 && a[0] == b[0] {
        let k = lemma_first_difference(a.drop_first(), b.drop_first());
        assert(a.take(k + 1) =~= seq![a[0]] + a.drop_first().take(k));
        assert(b.take(k + 1) =~= seq![b[0]] + b.drop_first().take(k));
        k + 1
    } else {
        assert(a.take(0) =~= b.take(0));
        0
    }
}

proof fn lemma_difference_decides(a: Seq<u8>, b: Seq<u8>, k: int)
    requires
        0 <= k <= a.len(),
        k < b.len(),
        a.take(k) == b.take(k),
        k == a.len() || a[k] < b[k],
    ensures
        bytes_before(a, b),
    decreases k,
{
    if k > 0 {
        assert(a.take(k)[0] == a[0] && b.take(k)[0] == b[0]);
        assert(a.drop_first().take(k - 1) =~= a.take(k).drop_first());
        assert(b.drop_first().take(k - 1) =~= b.take(k).drop_first());
        lemma_difference_decides(a.drop_first(), b.drop_first(), k - 1);
    }
}

/// Topics are ordered by the bytes of their nodes' names, and topics of one node by
/// the bytes of their own.
pub proof fn law_topic_order_goes_by_node_then_output(a: TopicName, b: TopicName)
    ensures
        a.node_id != b.node_id ==> (name_before(a, b) <==> bytes_before(
            encode_utf8(a.node_id),
            encode_utf8(b.node_id),
        )),
        a.node_id == b.node_id ==> (name_before(a, b) <==> bytes_before(
            encode_utf8(a.data_id),
            encode_utf8(b.data_id),
        )),
{
    lemma_text_total(a.node_id, b.node_id);
}

/// The entry for all topics comes first and appears once. Each other entry is one
/// of the topics and stands before those that follow it. No topic is missing.
pub proof fn law_shown_rows_are_all_then_the_topics_in_order(
    rows: Seq<TopicName>,
    topics: Seq<TopicName>,
)
    requires
        shows(rows, topics),
    ensures
        rows.len() > 0,
        rows[0].node_id == "<ALL>"@,
        rows[0].data_id == "*"@,
        forall|i: int, j: int|
            1 <= i < j < rows.len() ==> name_before(#[trigger] rows[i], #[trigger] rows[j]),
        forall|i: int|
            1 <= i < rows.len() ==> topics.contains(#[trigger] rows[i]) && rows[i] != rows[0],
        forall|j: int|
            0 <= j < topics.len() && #[trigger] topics[j] != rows[0] ==> rows.skip(1).contains(
                topics[j],
            ),
{
    let tail = rows.skip(1);
    assert forall|i: int, j: int| 1 <= i < j < rows.len() implies name_before(
        #[trigger] rows[i],
        #[trigger] rows[j],
    ) by {
        assert(name_before(tail[i - 1], tail[j - 1]));
    }
    assert forall|i: int| 1 <= i < rows.len() implies topics.contains(#[trigger] rows[i])
        && rows[i] != rows[0] by {
        assert(tail[i - 1] == rows[i]);
        assert(tail.contains(rows[i]));
    }
    assert forall|j: int|
        0 <= j < topics.len() && #[trigger] topics[j] != rows[0] implies rows.skip(1).contains(
        topics[j],
    ) by {
        assert(topics.contains(topics[j]));
    }
}

} // verus!
