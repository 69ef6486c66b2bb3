use persistent_list::List;

/// [0, 1, 2]
fn list_012() -> List<usize> {
    List::empty().into_cons(2).into_cons(1).into_cons(0)
}

/// [3, 4, 5]
fn list_345() -> List<usize> {
    List::empty().into_cons(5).into_cons(4).into_cons(3)
}

fn list_012345() -> List<usize> {
    List::empty()
        .into_cons(5)
        .into_cons(4)
        .into_cons(3)
        .into_cons(2)
        .into_cons(1)
        .into_cons(0)
}

fn forced_tail(list: &List<usize>) -> List<usize> {
    list.into_tail().unwrap()
}

#[test]
fn lib_sharing_with_immutable_cons_compiles() {
    let list1 = list_012();
    let _x = list1.cons(100);
    let _y = list1.cons(200);
}

#[test]
fn lib_equal_by_structure() {
    let list1 = list_012();
    let list2 = list_012();
    assert_eq!(list1, list2);
}

#[test]
fn lib_equal_but_not_same_list() {
    let list1 = list_012();
    let list2 = list_012();
    assert!(!list1.same(&list2));
}

#[test]
fn lib_same_as_itself() {
    let list1 = list_012();
    assert!(list1.same(&list1));
}

#[test]
fn lib_append_copies_first_and_shares_second() {
    let list1 = list_012();
    let list2 = list_345();
    let result = list1.append(&list2);

    let fresh = list_012345();

    // Equal but not the same as a fresh list.
    assert_eq!(result, fresh);
    assert!(!result.same(&fresh));

    // Walk over to the sharing point.
    let sublist = forced_tail(&forced_tail(&forced_tail(&result)));

    assert_eq!(sublist, list2);

    // Sublist within result is the same as original second list.
    assert!(sublist.same(&list2));
}

#[test]
fn lib_map_recursive_works() {
    let list1 = list_012();
    let list2 = list_345();

    let result = list1.map_recursive(|x| x + 3);

    assert_eq!(result, list2);
}

#[test]
fn test_list_macro_empty() {
    let l: List<i32> = List::empty();
    assert_eq!(None, l.head());
}

#[test]
fn test_list_macro_one_element() {
    let l: List<i32> = List::singleton(1);
    assert_eq!(1, *l.head().unwrap());
}

#[test]
fn test_list_macro() {
    let l: List<i32> = List::singleton(5)
        .into_cons(4)
        .into_cons(3)
        .into_cons(2)
        .into_cons(1);
    assert_eq!(1, *l.head().unwrap());
    assert_eq!(2, *l.tail().map(List::head).unwrap().unwrap());
}

#[test]
fn lib_map_iterative_works() {
    let list1 = list_012();
    let list2 = list_345();

    let result = list1.map(|x| x + 3);

    assert_eq!(result, list2);
}

#[test]
fn list_sharing_with_immutable_cons_compiles() {
    let list1 = list_012();
    let _x = list1.cons(100);
    let _y = list1.cons(200);
}

#[test]
fn list_equal_by_structure() {
    let list1 = list_012();
    let list2 = list_012();
    assert_eq!(list1, list2);
}

#[test]
fn list_equal_but_not_same_list() {
    let list1 = list_012();
    let list2 = list_012();
    assert!(!list1.same(&list2));
}

#[test]
fn list_same_as_itself() {
    let list1 = list_012();
    assert!(list1.same(&list1));
}

#[test]
fn list_append_copies_first_and_shares_second() {
    let list1 = list_012();
    let list2 = list_345();
    let result = list1.append(&list2);

    let fresh = list_012345();

    // Equal but not the same as a fresh list.
    assert_eq!(result, fresh);
    assert!(!result.same(&fresh));

    // Walk over to the sharing point.
    let sublist = forced_tail(&forced_tail(&forced_tail(&result)));

    assert_eq!(sublist, list2);

    // Sublist within result is the same as original second list.
    assert!(sublist.same(&list2));
}

#[test]
fn list_map_recursive_works() {
    let list1 = list_012();
    let list2 = list_345();

    let result = list1.map_recursive(|x| x + 3);

    assert_eq!(result, list2);
}

#[test]
fn list_map_iterative_works() {
    let list1 = list_012();
    let list2 = list_345();

    let result = list1.map(|x| x + 3);

    assert_eq!(result, list2);
}
