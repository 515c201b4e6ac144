use three_ds_http::multipart::Form;

#[test]
fn empty_form_can_be_made() {
    let _form = Form::new();
}
