use corewar::memory::WrappingArray;

fn check_wraps<const N: usize>() {
    let mut array = [0usize; N];
    let mut x = 0;
    while x < N {
        array[x] = x;
        x += 1;
    }
    let wrapped: WrappingArray<usize, N> = WrappingArray::from_array(array);
    for offset in 0..256 {
        for idx in 0..N {
            assert_eq!(*wrapped.get(offset * N + idx), idx)
        }
    }
}

#[test]
fn usize_indexing_wraps_correctly_for_many_sizes() {
    check_wraps::<0>();
    check_wraps::<10>();
    check_wraps::<20>();
    check_wraps::<32>();
    check_wraps::<64>();
    check_wraps::<128>();
    check_wraps::<256>();
    check_wraps::<4096>();
}

#[test]
fn wrapping_array_usize_indexing_wraps_correctly_for_many_sizes() {
    check_wraps::<0>();
    check_wraps::<10>();
    check_wraps::<20>();
    check_wraps::<32>();
    check_wraps::<64>();
    check_wraps::<128>();
    check_wraps::<256>();
    check_wraps::<4096>();
}
