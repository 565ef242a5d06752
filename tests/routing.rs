use bevy_spacetimedb::{
    on_procedure_result, on_reducer_result, register_procedure, register_reducer, EventBridge,
    InsertMessage, InsertUpdateMessage, MessageKind, ProcedureResultMessage, ReducerResultMessage,
    RowChange, RowHook, RowMessage, TableMessage, TableMessages, TableMessagesWithoutPrimaryKey,
    TableRoutes, UpdateMessage,
};

#[derive(Clone, Debug, PartialEq)]
struct Order {
    id: u32,
    item: String,
}

struct Orders;

impl TableMessage for Orders {
    type Row = Order;
    type Event = String;
}

fn order(id: u32, item: &str) -> Order {
    Order { id, item: item.to_string() }
}

fn describe(m: &RowMessage<Orders>) -> String {
    match m {
        RowMessage::Insert(InsertMessage { event, row }) => format!("insert {} {}", event, row.id),
        RowMessage::Delete(d) => format!("delete {} {}", d.event, d.row.id),
        RowMessage::Update(UpdateMessage { event, old, new }) => {
            format!("update {} {} {}", event, old.item, new.item)
        }
        RowMessage::InsertUpdate(InsertUpdateMessage { event, old, new }) => match old {
            Some(o) => format!("upsert {} {} {}", event, o.item, new.item),
            None => format!("upsert {} none {}", event, new.item),
        },
    }
}

fn drain_described(b: &mut EventBridge<RowMessage<Orders>>) -> Vec<Vec<String>> {
    b.drain_all().iter().map(|q| q.iter().map(describe).collect()).collect()
}

#[test]
fn table_messages_all_asks_for_everything() {
    let m = TableMessages::all();
    assert!(m.insert && m.update && m.delete);
}

#[test]
fn table_messages_no_update_leaves_out_updates() {
    let m = TableMessages::no_update();
    assert!(m.insert && !m.update && m.delete);
}

#[test]
fn table_messages_without_primary_key_all() {
    let m = TableMessagesWithoutPrimaryKey::all();
    assert!(m.insert && m.delete);
}

#[test]
fn all_kinds_route_four_channels_and_five_callbacks() {
    let mut b: EventBridge<RowMessage<Orders>> = EventBridge::new();
    let mut t = TableRoutes::new(10);
    t.add_table(&mut b);
    let hooks: Vec<(RowHook, MessageKind)> = t.callbacks.iter().map(|c| (c.hook, c.kind)).collect();
    assert_eq!(
        hooks,
        vec![
            (RowHook::OnInsert, MessageKind::Insert),
            (RowHook::OnDelete, MessageKind::Delete),
            (RowHook::OnUpdate, MessageKind::Update),
            (RowHook::OnUpdate, MessageKind::InsertUpdate),
            (RowHook::OnInsert, MessageKind::InsertUpdate),
        ]
    );
    assert_eq!(b.drain_all().len(), 4);
}

#[test]
fn orders_insert_yields_insert_and_combined_message() {
    let mut b: EventBridge<RowMessage<Orders>> = EventBridge::new();
    let mut t = TableRoutes::new(10);
    t.add_partial_table(&mut b, TableMessages::all());
    let a = order(1, "tea");
    t.on_row_change(&mut b, &"ev".to_string(), &RowChange::Inserted(a.clone()));
    let drained = b.drain_all();
    let all: Vec<&RowMessage<Orders>> = drained.iter().flatten().collect();
    assert_eq!(all.len(), 2);
    let inserts: Vec<&Order> = all
        .iter()
        .filter_map(|m| match m {
            RowMessage::Insert(i) => Some(&i.row),
            _ => None,
        })
        .collect();
    let combined: Vec<(Option<&Order>, &Order)> = all
        .iter()
        .filter_map(|m| match m {
            RowMessage::InsertUpdate(i) => Some((i.old.as_ref(), &i.new)),
            _ => None,
        })
        .collect();
    assert_eq!(inserts, vec![&a]);
    assert_eq!(combined, vec![(None, &a)]);
}

#[test]
fn insert_and_update_add_the_combined_channel() {
    let mut b: EventBridge<RowMessage<Orders>> = EventBridge::new();
    let mut t = TableRoutes::new(3);
    t.add_partial_table(&mut b, TableMessages { insert: true, update: true, delete: false });
    t.on_row_change(
        &mut b,
        &"ev".to_string(),
        &RowChange::Updated(order(1, "tea"), order(1, "coffee")),
    );
    assert_eq!(
        drain_described(&mut b),
        vec![
            Vec::<String>::new(),
            vec!["update ev tea coffee".to_string()],
            vec!["upsert ev tea coffee".to_string()],
        ]
    );
}

#[test]
fn update_alone_has_no_combined_channel() {
    let mut b: EventBridge<RowMessage<Orders>> = EventBridge::new();
    let mut t = TableRoutes::new(3);
    t.add_partial_table(&mut b, TableMessages { insert: false, update: true, delete: false });
    t.on_row_change(&mut b, &"e".to_string(), &RowChange::Updated(order(1, "a"), order(1, "b")));
    t.on_row_change(&mut b, &"e".to_string(), &RowChange::Inserted(order(2, "c")));
    assert_eq!(drain_described(&mut b), vec![vec!["update e a b".to_string()]]);
}

#[test]
fn delete_is_routed_on_its_own_channel() {
    let mut b: EventBridge<RowMessage<Orders>> = EventBridge::new();
    let mut t = TableRoutes::new(3);
    t.add_partial_table(&mut b, TableMessages::no_update());
    t.on_row_change(&mut b, &"d".to_string(), &RowChange::Deleted(order(4, "x")));
    assert_eq!(
        drain_described(&mut b),
        vec![Vec::<String>::new(), vec!["delete d 4".to_string()]]
    );
}

#[test]
fn table_without_primary_key_has_no_update_route() {
    let mut b: EventBridge<RowMessage<Orders>> = EventBridge::new();
    let mut t = TableRoutes::new(5);
    t.add_table_without_pk(&mut b);
    assert!(t.callbacks.iter().all(|c| c.hook != RowHook::OnUpdate));
    assert!(t
        .callbacks
        .iter()
        .all(|c| c.kind == MessageKind::Insert || c.kind == MessageKind::Delete));
    t.on_row_change(&mut b, &"u".to_string(), &RowChange::Updated(order(1, "a"), order(1, "b")));
    t.on_row_change(&mut b, &"i".to_string(), &RowChange::Inserted(order(2, "c")));
    assert_eq!(
        drain_described(&mut b),
        vec![vec!["insert i 2".to_string()], Vec::<String>::new()]
    );
}

#[test]
fn registering_twice_shares_the_channel_and_doubles_the_callbacks() {
    let mut b: EventBridge<RowMessage<Orders>> = EventBridge::new();
    let mut t = TableRoutes::new(5);
    let only_insert = TableMessages { insert: true, update: false, delete: false };
    t.add_partial_table(&mut b, only_insert);
    t.add_partial_table(&mut b, only_insert);
    assert_eq!(t.callbacks.len(), 2);
    assert_eq!(t.callbacks[0].sender, t.callbacks[1].sender);
    t.on_row_change(&mut b, &"e".to_string(), &RowChange::Inserted(order(9, "z")));
    assert_eq!(
        drain_described(&mut b),
        vec![vec!["insert e 9".to_string(), "insert e 9".to_string()]]
    );
}

#[test]
fn two_tables_keep_separate_channels() {
    let mut b: EventBridge<RowMessage<Orders>> = EventBridge::new();
    let mut t1 = TableRoutes::new(1);
    let mut t2 = TableRoutes::new(2);
    let only_insert = TableMessages { insert: true, update: false, delete: false };
    t1.add_partial_table(&mut b, only_insert);
    t2.add_partial_table(&mut b, only_insert);
    t2.on_row_change(&mut b, &"e".to_string(), &RowChange::Inserted(order(2, "b")));
    assert_eq!(
        drain_described(&mut b),
        vec![Vec::<String>::new(), vec!["insert e 2".to_string()]]
    );
}

#[derive(Debug, PartialEq)]
struct SetName {
    name: String,
}

#[test]
fn set_name_reducer_result_is_drained_once() {
    let mut b: EventBridge<ReducerResultMessage<SetName>> = EventBridge::new();
    let s = register_reducer(&mut b, 77);
    assert_eq!(register_reducer(&mut b, 77), s);
    on_reducer_result(&mut b, s, SetName { name: "x".to_string() });
    let drained = b.drain(s);
    assert_eq!(drained.len(), 1);
    assert_eq!(drained[0].result, SetName { name: "x".to_string() });
}

#[test]
fn procedure_result_is_drained() {
    let mut b: EventBridge<ProcedureResultMessage<u64>> = EventBridge::new();
    let s = register_procedure(&mut b, 4);
    on_procedure_result(&mut b, s, 12);
    on_procedure_result(&mut b, s, 13);
    let got: Vec<u64> = b.drain(s).into_iter().map(|m| m.result).collect();
    assert_eq!(got, vec![12, 13]);
}

#[test]
fn reducer_result_after_teardown_is_dropped() {
    let mut b: EventBridge<ReducerResultMessage<u8>> = EventBridge::new();
    let s = register_reducer(&mut b, 1);
    b.close_receiver(s);
    on_reducer_result(&mut b, s, 3);
    assert!(b.drain(s).is_empty());
}
