use rustix_vkernel::c_fastpath;

#[test]
fn fast_loops_pass_their_own_test() {
    assert!(c_fastpath::self_test());
}
