use edge_mux::borrow::BorrowedVec;

#[test]
fn borrowed_vec_reads_the_borrowed_bytes() {
    let vec: Vec<u8> = vec![0, 1, 2];
    let borrower = BorrowedVec::new(&vec);
    assert_eq!(borrower.get(), &vec![0u8, 1, 2]);
    assert_eq!(borrower.get().len(), 3);
}
