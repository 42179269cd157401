use cyano::cell::{BorrowState, Cell, Ref, RefCell, UnsafeCell};
use cyano::convert::{AsRef as CoreAsRef, From as CoreFrom, Into as CoreInto, TryFrom as CoreTryFrom, TryInto as CoreTryInto};
use cyano::runtime;
use cyano::slice;

#[test]
fn unsafe_cell_round_trip() {
    let c = UnsafeCell::new(7u64);
    assert_eq!(*c.get(), 7);
    assert_eq!(c.into_inner(), 7);
}

#[test]
fn cell_get_and_set() {
    let mut c = Cell::new(5u64);
    assert_eq!(c.get(), 5);
    c.set(10);
    assert_eq!(c.get(), 10);
    assert_eq!(*c.as_unsafe_cell().get(), 10);
    *c.get_mut() += 1;
    assert_eq!(c.get(), 11);
}

#[test]
fn ref_cell_borrow_state() {
    let c = RefCell::new(5u64);
    assert_eq!(c.borrow_state(), BorrowState::Unused);
}

#[test]
fn ref_cell_borrow_and_borrow_mut() {
    let mut c = RefCell::new(5u64);
    {
        let h = c.borrow();
        let h2 = Ref::clone(&h);
        assert_eq!(*h.value, 5);
        assert_eq!(*h2.value, 5);
    }
    {
        let m = c.borrow_mut();
        *m.value = 9;
    }
    assert_eq!(c.into_inner(), 9);
}

#[test]
fn ref_map_projects_a_component() {
    let c = RefCell::new((1u64, 2u64));
    let h = c.borrow();
    let second = Ref::map(h, |p: &(u64, u64)| &p.1);
    assert_eq!(*second.value, 2);
}

#[test]
fn runtime_vec_push_and_pop() {
    let mut v: runtime::Vec<u64> = runtime::Vec::new();
    v.push(1);
    v.push(2);
    let top = v.pop();
    assert!(matches!(top, runtime::Option::Has(2)));
    let next = v.pop();
    assert!(matches!(next, runtime::Option::Has(1)));
    let none = v.pop();
    assert!(matches!(none, runtime::Option::Empty));
}

#[test]
fn runtime_option_helpers() {
    let some: runtime::Option<u64> = runtime::Option::Has(4);
    let none: runtime::Option<u64> = runtime::Option::Empty;
    assert!(some.is_some());
    assert!(!none.is_some());
    let some2: runtime::Option<u64> = runtime::Option::Has(4);
    let none2: runtime::Option<u64> = runtime::Option::Empty;
    assert_eq!(some2.unwrap_or(9), 4);
    assert_eq!(none2.unwrap_or(9), 9);
}

struct Meters(u64);
struct Millimeters(u64);

impl CoreFrom<Meters> for Millimeters {
    fn from(m: Meters) -> Millimeters {
        Millimeters(m.0 * 1000)
    }
}

impl CoreTryFrom<u64> for Meters {
    type Err = ();

    fn try_from(v: u64) -> Result<Meters, ()> {
        if v <= 1000 {
            Ok(Meters(v))
        } else {
            Err(())
        }
    }
}

impl CoreAsRef<u64> for Meters {
    fn as_ref(&self) -> &u64 {
        &self.0
    }
}

#[test]
fn from_yields_into() {
    let m = Meters(3);
    let mm: Millimeters = CoreInto::into(m);
    assert_eq!(mm.0, 3000);
}

#[test]
fn from_is_reflexive() {
    let x: u64 = 5;
    let y: u64 = CoreFrom::from(x);
    assert_eq!(y, 5);
}

#[test]
fn try_from_yields_try_into() {
    let ok: Result<Meters, ()> = CoreTryInto::try_into(7u64);
    assert_eq!(ok.map(|m| m.0), Ok(7));
    let err: Result<Meters, ()> = CoreTryInto::try_into(2000u64);
    assert!(err.map(|m| m.0).is_err());
}

#[test]
fn as_ref_lifts_over_references() {
    let m = Meters(8);
    let r = &m;
    let v: &u64 = CoreAsRef::as_ref(&r);
    assert_eq!(*v, 8);
}

#[test]
fn slice_element_access() {
    let v = [10u64, 20, 30];
    assert_eq!(slice::get(&v, 1), Some(&20));
    assert_eq!(slice::get(&v, 3), None);
    assert_eq!(slice::first(&v), Some(&10));
    assert_eq!(slice::last(&v), Some(&30));
    let empty: [u64; 0] = [];
    assert_eq!(slice::first(&empty), None);
    assert_eq!(slice::last(&empty), None);
}

#[test]
fn slice_splitting() {
    let v = [1u64, 2, 3, 4];
    let (head, rest) = slice::split_first(&v).unwrap();
    assert_eq!(*head, 1);
    assert_eq!(rest, &[2, 3, 4]);
    let (tail, front) = slice::split_last(&v).unwrap();
    assert_eq!(*tail, 4);
    assert_eq!(front, &[1, 2, 3]);
    let (a, b) = slice::split_at(&v, 1);
    assert_eq!(a, &[1]);
    assert_eq!(b, &[2, 3, 4]);
}

#[test]
fn slice_searching() {
    let v = [1u64, 3, 5];
    assert!(slice::contains(&v, &3));
    assert!(!slice::contains(&v, &4));
    assert!(slice::starts_with(&v, &[1, 3]));
    assert!(!slice::starts_with(&v, &[3]));
    assert!(slice::ends_with(&v, &[3, 5]));
    assert!(!slice::ends_with(&v, &[1]));
    assert!(slice::starts_with(&v, &[]));
    assert!(slice::ends_with(&v, &[]));
}

#[test]
fn binary_search_finds_and_places() {
    let v = [2u64, 4, 6, 8];
    assert_eq!(slice::binary_search(&v, 6), Ok(2));
    assert_eq!(slice::binary_search(&v, 5), Err(2));
    assert_eq!(slice::binary_search(&v, 1), Err(0));
    assert_eq!(slice::binary_search(&v, 9), Err(4));
}

#[test]
fn swap_and_reverse() {
    let mut v = vec![1u64, 2, 3, 4, 5];
    slice::swap(&mut v, 0, 4);
    assert_eq!(v, vec![5, 2, 3, 4, 1]);
    slice::reverse(&mut v);
    assert_eq!(v, vec![1, 4, 3, 2, 5]);
    let mut e: Vec<u64> = vec![];
    slice::reverse(&mut e);
    assert!(e.is_empty());
}

#[test]
fn windows_overlap() {
    let v = [1u64, 2, 3, 4];
    let mut w = slice::windows(&v, 2);
    assert_eq!(w.next(), Some(&[1u64, 2][..]));
    assert_eq!(w.next(), Some(&[2u64, 3][..]));
    assert_eq!(w.next(), Some(&[3u64, 4][..]));
    assert_eq!(w.next(), None);
}

#[test]
fn windows_longer_than_slice_yield_nothing() {
    let v = [1u64, 2];
    let mut w = slice::windows(&v, 3);
    assert_eq!(w.next(), None);
}

#[test]
fn chunks_cover_without_overlap() {
    let v = [1u64, 2, 3, 4, 5];
    let mut c = slice::chunks(&v, 2);
    assert_eq!(c.next(), Some(&[1u64, 2][..]));
    assert_eq!(c.next(), Some(&[3u64, 4][..]));
    assert_eq!(c.next(), Some(&[5u64][..]));
    assert_eq!(c.next(), None);
}

#[test]
fn split_separates_on_matches() {
    let v = [1u64, 0, 2, 3, 0];
    let mut s = slice::split(&v, |x: &u64| *x == 0);
    assert_eq!(s.next(), Some(&[1u64][..]));
    assert_eq!(s.next(), Some(&[2u64, 3][..]));
    assert_eq!(s.next(), Some(&[][..]));
    assert_eq!(s.next(), None);
}

#[test]
fn binary_search_by_uses_the_comparator() {
    let v = [10u64, 20, 30, 40];
    let r = slice::binary_search_by(&v, |x: &u64| x.cmp(&30));
    assert_eq!(r, Ok(2));
    let r = slice::binary_search_by(&v, |x: &u64| x.cmp(&35));
    assert_eq!(r, Err(3));
    let r = slice::binary_search_by(&v, |x: &u64| x.cmp(&5));
    assert_eq!(r, Err(0));
}

#[test]
fn windows_count_nth_last() {
    let v = [1u64, 2, 3, 4, 5];
    let w = slice::windows(&v, 2);
    assert_eq!(w.count(), 4);
    let mut w = slice::windows(&v, 2);
    assert_eq!(w.nth(2), Some(&[3u64, 4][..]));
    assert_eq!(w.next(), Some(&[4u64, 5][..]));
    assert_eq!(w.nth(1), None);
    let w = slice::windows(&v, 2);
    assert_eq!(w.last(), Some(&[4u64, 5][..]));
    let w = slice::windows(&v, 9);
    assert_eq!(w.count(), 0);
    assert_eq!(w.last(), None);
}

#[test]
fn chunks_count_and_last() {
    let v = [1u64, 2, 3, 4, 5];
    let c = slice::chunks(&v, 2);
    assert_eq!(c.count(), 3);
    let c = slice::chunks(&v, 2);
    assert_eq!(c.last(), Some(&[5u64][..]));
    let c = slice::chunks(&v, 5);
    assert_eq!(c.last(), Some(&[1u64, 2, 3, 4, 5][..]));
    let e: [u64; 0] = [];
    let c = slice::chunks(&e, 3);
    assert_eq!(c.count(), 0);
    assert_eq!(c.last(), None);
}

#[test]
fn splitn_caps_the_piece_count() {
    let v = [1u64, 0, 2, 0, 3];
    let mut s = slice::splitn(&v, 2, |x: &u64| *x == 0);
    assert_eq!(s.next(), Some(&[1u64][..]));
    assert_eq!(s.next(), Some(&[2u64, 0, 3][..]));
    assert_eq!(s.next(), None);
    let mut z = slice::splitn(&v, 0, |x: &u64| *x == 0);
    assert_eq!(z.next(), None);
}

#[test]
fn rsplitn_takes_pieces_from_the_back() {
    let v = [1u64, 0, 2, 0, 3];
    let mut s = slice::rsplitn(&v, 2, |x: &u64| *x == 0);
    assert_eq!(s.next(), Some(&[3u64][..]));
    assert_eq!(s.next(), Some(&[1u64, 0, 2][..]));
    assert_eq!(s.next(), None);
    let mut all = slice::rsplitn(&v, 9, |x: &u64| *x == 0);
    assert_eq!(all.next(), Some(&[3u64][..]));
    assert_eq!(all.next(), Some(&[2u64][..]));
    assert_eq!(all.next(), Some(&[1u64][..]));
    assert_eq!(all.next(), None);
}

#[test]
fn try_borrows_follow_the_flag() {
    let mut c = RefCell::new(3u64);
    assert!(c.try_borrow().is_ok());
    assert!(c.try_borrow_mut().is_ok());
    let mut writing = RefCell { borrow: Cell::new(u64::MAX), value: cyano::cell::UnsafeCell::new(3u64) };
    assert!(writing.try_borrow().is_err());
    assert!(writing.try_borrow_mut().is_err());
    let mut reading = RefCell { borrow: Cell::new(2), value: cyano::cell::UnsafeCell::new(3u64) };
    assert_eq!(reading.borrow_state(), BorrowState::Reading);
    assert!(reading.try_borrow().is_ok());
    assert!(reading.try_borrow_mut().is_err());
}

#[test]
fn copy_from_slice_overwrites() {
    let mut v = vec![0u64, 0, 0];
    slice::copy_from_slice(&mut v, &[7, 8, 9]);
    assert_eq!(v, vec![7, 8, 9]);
}

#[test]
fn mut_accessors_write_through() {
    let mut v = [1u64, 2, 3, 4];
    {
        let (a, b) = slice::split_at_mut(&mut v, 2);
        a[0] = 10;
        b[1] = 40;
    }
    assert_eq!(v, [10, 2, 3, 40]);
    *slice::first_mut(&mut v).unwrap() = 5;
    *slice::last_mut(&mut v).unwrap() = 6;
    assert_eq!(v, [5, 2, 3, 6]);
    let mut e: [u64; 0] = [];
    assert!(slice::first_mut(&mut e).is_none());
    assert!(slice::last_mut(&mut e).is_none());
}

#[test]
fn slices_and_str_convert_to_themselves() {
    let v = [1u64, 2];
    let r: &[u64] = CoreAsRef::as_ref(&v[..]);
    assert_eq!(r, &[1, 2]);
    let s: &str = CoreAsRef::as_ref("ab");
    assert_eq!(s, "ab");
}
