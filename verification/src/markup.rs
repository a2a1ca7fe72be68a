use vstd::prelude::*;
use vstd::string::StringExecFns;
use crate::model::Input;

verus! {

/// The character for one decimal digit.
pub open spec fn digit_char(d: nat) -> char {
    if d == 0 { '0' } else if d == 1 { '1' } else if d == 2 { '2' } else if d == 3 { '3' }
    else if d == 4 { '4' } else if d == 5 { '5' } else if d == 6 { '6' } else if d == 7 { '7' }
    else if d == 8 { '8' } else { '9' }
}

/// The decimal rendering of a natural number, most significant digit first,
/// without a sign and without leading zeros (except for zero itself).
pub open spec fn dec_digits(n: nat) -> Seq<char>
    decreases n,
{
    if n < 10 {
        seq![digit_char(n)]
    } else {
        dec_digits(n / 10).push(digit_char(n % 10))
    }
}

fn digit_str(d: usize) -> (r: &'static str)
    requires
        d < 10,
    ensures
        r@ == seq![digit_char(d as nat)],
{
    let r: &'static str = match d {
        0 => "0",
        1 => "1",
        2 => "2",
        3 => "3",
        4 => "4",
        5 => "5",
        6 => "6",
        7 => "7",
        8 => "8",
        _ => "9",
    };
    proof {
        reveal_strlit("0");
        reveal_strlit("1");
        reveal_strlit("2");
        reveal_strlit("3");
        reveal_strlit("4");
        reveal_strlit("5");
        reveal_strlit("6");
        reveal_strlit("7");
        reveal_strlit("8");
        reveal_strlit("9");
        assert(r@ =~= seq![digit_char(d as nat)]);
    }
    r
}

/// Appends the decimal rendering of `n` to `out`.
fn push_decimal(out: &mut String, n: usize)
    ensures
        final(out)@ == old(out)@ + dec_digits(n as nat),
    decreases n,
{
    if n >= 10 {
        push_decimal(out, n / 10);
    }
    out.append(digit_str(n % 10));
    proof {
        assert(out@ =~= old(out)@ + dec_digits(n as nat));
    }
}

/// The markup block for one editable field of the given index, input type and
/// pre-filled value.
pub open spec fn spec_field_block(index: nat, input_type: Seq<char>, value: Seq<char>) -> Seq<char> {
    "<label for=\"exampleInput"@ + dec_digits(index)
        + "\" class=\"col-sm-2 col-form-label mt-3\"><i>x<sub>"@ + dec_digits(index)
        + "</sub> = </i></label><div class=\"col-sm-10 mt-3\"><input type=\""@ + input_type
        + "\" class=\"form-control input\" id=\"exampleInput"@ + dec_digits(index)
        + "\" name=\"x"@ + dec_digits(index)
        + "\" aria-describedby=\"input6\" placeholder=\"x"@ + dec_digits(index)
        + "\" value=\""@ + value
        + "\"></div>"@
}

/// Renders one editable field: a label naming the variable by its index, and
/// an input element whose id and name carry the same index.
pub fn add_input(index: usize, input_type: &str, initial_value: &str) -> (r: String)
    ensures
        r@ == spec_field_block(index as nat, input_type@, initial_value@),
{
    let mut r = String::new();
    r.append("<label for=\"exampleInput");
    push_decimal(&mut r, index);
    r.append("\" class=\"col-sm-2 col-form-label mt-3\"><i>x<sub>");
    push_decimal(&mut r, index);
    r.append("</sub> = </i></label><div class=\"col-sm-10 mt-3\"><input type=\"");
    r.append(input_type);
    r.append("\" class=\"form-control input\" id=\"exampleInput");
    push_decimal(&mut r, index);
    r.append("\" name=\"x");
    push_decimal(&mut r, index);
    r.append("\" aria-describedby=\"input6\" placeholder=\"x");
    push_decimal(&mut r, index);
    r.append("\" value=\"");
    r.append(initial_value);
    r.append("\"></div>");
    proof {
        assert(r@ =~= spec_field_block(index as nat, input_type@, initial_value@));
    }
    r
}

/// Renders a numeric field: the same editable element as a text field, whose
/// pre-filled value is the descriptor's numeric default in textual form.
pub fn add_number(index: usize, initial_value: &str) -> (r: String)
    ensures
        r@ == spec_field_block(index as nat, "text"@, initial_value@),
{
    add_input(index, "text", initial_value)
}

/// Renders a text field.
pub fn add_text(index: usize, initial_value: &str) -> (r: String)
    ensures
        r@ == spec_field_block(index as nat, "text"@, initial_value@),
{
    add_input(index, "text", initial_value)
}

/// The markup block for one slider: a read-only display of the current value
/// paired with a range control carrying the given bounds, step and initial
/// value. Adjusting the control updates the paired display on the surface
/// side only; the bounds are never re-checked by the host.
pub open spec fn spec_slider_block(
    index: nat,
    min: Seq<char>,
    max: Seq<char>,
    step: Seq<char>,
    initial_value: Seq<char>,
) -> Seq<char> {
    "<label for=\"exampleInput"@ + dec_digits(index)
        + "\" class=\"col-sm-2 col-form-label mt-3\"><i>x<sub>"@ + dec_digits(index)
        + "</sub> = </i></label><div class=\"col-sm-10 mt-3 form-group\" style=\"display: flex\"><input type=\"text\" class=\"form-control col-sm-2\" value=\""@
        + initial_value
        + "\" readonly>\n            <input type=\"range\" class=\"form-control input col-sm-10\" min=\""@
        + min
        + "\" max=\""@ + max
        + "\" step=\""@ + step
        + "\" id=\"exampleInput"@ + dec_digits(index)
        + "\" name=\"x"@ + dec_digits(index)
        + "\" aria-describedby=\"input6\" placeholder=\"x"@ + dec_digits(index)
        + "\" value=\""@ + initial_value
        + "\" oninput=\"this.previousElementSibling.value = this.value\"></div>"@
}

/// Renders one slider block.
pub fn add_slider(
    index: usize,
    initial_value: &str,
    max: &str,
    min: &str,
    step: &str,
) -> (r: String)
    ensures
        r@ == spec_slider_block(index as nat, min@, max@, step@, initial_value@),
{
    let mut r = String::new();
    r.append("<label for=\"exampleInput");
    push_decimal(&mut r, index);
    r.append("\" class=\"col-sm-2 col-form-label mt-3\"><i>x<sub>");
    push_decimal(&mut r, index);
    r.append("</sub> = </i></label><div class=\"col-sm-10 mt-3 form-group\" style=\"display: flex\"><input type=\"text\" class=\"form-control col-sm-2\" value=\"");
    r.append(initial_value);
    r.append("\" readonly>\n            <input type=\"range\" class=\"form-control input col-sm-10\" min=\"");
    r.append(min);
    r.append("\" max=\"");
    r.append(max);
    r.append("\" step=\"");
    r.append(step);
    r.append("\" id=\"exampleInput");
    push_decimal(&mut r, index);
    r.append("\" name=\"x");
    push_decimal(&mut r, index);
    r.append("\" aria-describedby=\"input6\" placeholder=\"x");
    push_decimal(&mut r, index);
    r.append("\" value=\"");
    r.append(initial_value);
    r.append("\" oninput=\"this.previousElementSibling.value = this.value\"></div>");
    proof {
        assert(r@ =~= spec_slider_block(index as nat, min@, max@, step@, initial_value@));
    }
    r
}

/// The fixed head of the document: styles, the client-side submit script that
/// joins the current value of every element tagged as an input with the
/// reserved separator and posts the result on the inbound-message channel,
/// and the opening of the form.
pub open spec fn spec_beginning() -> Seq<char> {
    "<html lang=\"en\">
        <head>
            <meta charset=\"utf-8\">
            <meta name=\"viewport\" content=\"width=device-width, initial-scale=1, shrink-to-fit=no\">
            <link rel=\"stylesheet\" href=\"https://cdn.jsdelivr.net/npm/bootstrap@4.3.1/dist/css/bootstrap.min.css\" integrity=\"sha384-ggOyR0iXCbMQv3Xipma34MD+dH/1fQ784/j6cY/iJTQUOhcWr7x9JvoRxT2MZw1T\" crossorigin=\"anonymous\">
            <script type=\"text/javascript\">
                function run_calculation() {
                    var numbers = [];
                    var classes = document.getElementsByClassName('input');
                    Array.from(classes).forEach((x, i) => numbers.push(Number(x.value)));
                    ipc.postMessage(numbers.toString());
                }
            </script>
        </head>
        <body>
            <div class=\"container\">
                <div class=\"row mt-3\">
                    <div class=\"col text-center\">
                        <form action=\"#\" method=\"POST\" onsubmit=\"run_calculation()\">
                            <div class=\"form-group row\" id=\"input-group\">"@
}

/// The document skeleton's head, before the per-input blocks.
pub fn beginning() -> (r: String)
    ensures
        r@ == spec_beginning(),
{
    "<html lang=\"en\">
        <head>
            <meta charset=\"utf-8\">
            <meta name=\"viewport\" content=\"width=device-width, initial-scale=1, shrink-to-fit=no\">
            <link rel=\"stylesheet\" href=\"https://cdn.jsdelivr.net/npm/bootstrap@4.3.1/dist/css/bootstrap.min.css\" integrity=\"sha384-ggOyR0iXCbMQv3Xipma34MD+dH/1fQ784/j6cY/iJTQUOhcWr7x9JvoRxT2MZw1T\" crossorigin=\"anonymous\">
            <script type=\"text/javascript\">
                function run_calculation() {
                    var numbers = [];
                    var classes = document.getElementsByClassName('input');
                    Array.from(classes).forEach((x, i) => numbers.push(Number(x.value)));
                    ipc.postMessage(numbers.toString());
                }
            </script>
        </head>
        <body>
            <div class=\"container\">
                <div class=\"row mt-3\">
                    <div class=\"col text-center\">
                        <form action=\"#\" method=\"POST\" onsubmit=\"run_calculation()\">
                            <div class=\"form-group row\" id=\"input-group\">".to_owned()
}

/// The fixed tail of the document: the submit control, the read-only output
/// element whose id is `output`, the closing of the form, and the script
/// includes.
pub open spec fn spec_end() -> Seq<char> {
    "                        </div>

                            <div class=\"form-group\" id=\"submit\">
                                <button type=\"submit\" class=\"btn btn-primary\">Submit</button>
                            </div>

                            <div class=\"form-group row\" id=\"output-group\">
                                <label for=\"output\" class=\"col-sm-2 col-form-label\"><i>y = </i></label>
                                <div class=\"col-sm-10\">
                                    <input type=\"text\" class=\"form-control\" id=\"output\" name=\"output\" aria-describedby=\"output\" readonly>
                                </div>
                            </div>
                        </form>
                    </div>
                </div>
            </div>
            <script src=\"https://code.jquery.com/jquery-3.3.1.slim.min.js\" integrity=\"sha384-q8i/X+965DzO0rT7abK41JStQIAqVgRVzpbzo5smXKp4YfRvH+8abtTE1Pi6jizo\" crossorigin=\"anonymous\"></script>
            <script src=\"https://cdn.jsdelivr.net/npm/popper.js@1.14.7/dist/umd/popper.min.js\" integrity=\"sha384-UO2eT0CpHqdSJQ6hJty5KVphtPhzWj9WO1clHTMGa3JDZwrnQq4sF86dIHNDz0W1\" crossorigin=\"anonymous\"></script>
            <script src=\"https://cdn.jsdelivr.net/npm/bootstrap@4.3.1/dist/js/bootstrap.min.js\" integrity=\"sha384-JjSmVgyd0p3pXB1rRibZUAYoIIy6OrQ6VrjIEaFf/nJGzIxFDsf4x0xIM+B07jRM\" crossorigin=\"anonymous\"></script>
        </body>
    </html>"@
}

/// The document skeleton's tail, after the per-input blocks.
pub fn end() -> (r: String)
    ensures
        r@ == spec_end(),
{
    "                        </div>

                            <div class=\"form-group\" id=\"submit\">
                                <button type=\"submit\" class=\"btn btn-primary\">Submit</button>
                            </div>

                            <div class=\"form-group row\" id=\"output-group\">
                                <label for=\"output\" class=\"col-sm-2 col-form-label\"><i>y = </i></label>
                                <div class=\"col-sm-10\">
                                    <input type=\"text\" class=\"form-control\" id=\"output\" name=\"output\" aria-describedby=\"output\" readonly>
                                </div>
                            </div>
                        </form>
                    </div>
                </div>
            </div>
            <script src=\"https://code.jquery.com/jquery-3.3.1.slim.min.js\" integrity=\"sha384-q8i/X+965DzO0rT7abK41JStQIAqVgRVzpbzo5smXKp4YfRvH+8abtTE1Pi6jizo\" crossorigin=\"anonymous\"></script>
            <script src=\"https://cdn.jsdelivr.net/npm/popper.js@1.14.7/dist/umd/popper.min.js\" integrity=\"sha384-UO2eT0CpHqdSJQ6hJty5KVphtPhzWj9WO1clHTMGa3JDZwrnQq4sF86dIHNDz0W1\" crossorigin=\"anonymous\"></script>
            <script src=\"https://cdn.jsdelivr.net/npm/bootstrap@4.3.1/dist/js/bootstrap.min.js\" integrity=\"sha384-JjSmVgyd0p3pXB1rRibZUAYoIIy6OrQ6VrjIEaFf/nJGzIxFDsf4x0xIM+B07jRM\" crossorigin=\"anonymous\"></script>
        </body>
    </html>".to_owned()
}

/// The markup block of one descriptor at the given index.
pub open spec fn spec_block(index: nat, input: Input) -> Seq<char> {
    match input {
        Input::Number(v) => spec_field_block(index, "text"@, v@),
        Input::Text(v) => spec_field_block(index, "text"@, v@),
        Input::Slider { min, max, step, initial_value } =>
            spec_slider_block(index, min@, max@, step@, initial_value@),
    }
}

/// The concatenation of the blocks of a descriptor sequence, in order.
pub open spec fn spec_blocks(inputs: Seq<Input>) -> Seq<char>
    decreases inputs.len(),
{
    if inputs.len() == 0 {
        Seq::empty()
    } else {
        spec_blocks(inputs.drop_last()) + spec_block((inputs.len() - 1) as nat, inputs.last())
    }
}

/// The whole generated document: the fixed head, one block per descriptor in
/// descriptor order, and the fixed tail.
pub open spec fn spec_document(inputs: Seq<Input>) -> Seq<char> {
    spec_beginning() + spec_blocks(inputs) + spec_end()
}

proof fn lemma_blocks_take_step(inputs: Seq<Input>, i: int)
    requires
        0 <= i < inputs.len(),
    ensures
        spec_blocks(inputs.take(i + 1)) == spec_blocks(inputs.take(i)) + spec_block(
            i as nat,
            inputs[i],
        ),
{
    let t = inputs.take(i + 1);
    assert(t.drop_last() =~= inputs.take(i));
    assert(t.last() == inputs[i]);
}

/// Turns an ordered sequence of descriptors into the markup document: one
/// interactive element block per descriptor, in descriptor order, between the
/// fixed head and tail.
///
/// The result is a function of the descriptor sequence alone, so two calls on
/// the same sequence yield identical documents.
pub fn generate(inputs: &Vec<Input>) -> (r: String)
    ensures
        r@ == spec_document(inputs@),
{
    let mut html = beginning();
    let mut idx: usize = 0;
    while idx < inputs.len()
        invariant
            idx <= inputs@.len(),
            html@ == spec_beginning() + spec_blocks(inputs@.take(idx as int)),
        decreases inputs@.len() - idx,
    {
        let block = match &inputs[idx] {
            Input::Number(v) => add_number(idx, v.as_str()),
            Input::Text(v) => add_text(idx, v.as_str()),
            Input::Slider { min, max, step, initial_value } => add_slider(
                idx,
                initial_value.as_str(),
                max.as_str(),
                min.as_str(),
                step.as_str(),
            ),
        };
        html.append(block.as_str());
        proof {
            lemma_blocks_take_step(inputs@, idx as int);
            assert(block@ == spec_block(idx as nat, inputs@[idx as int]));
        }
        idx += 1;
    }
    let tail = end();
    html.append(tail.as_str());
    proof {
        assert(inputs@.take(inputs@.len() as int) =~= inputs@);
    }
    html
}

/// The blocks of a descriptor sequence, one per descriptor, in order.
pub open spec fn block_list(inputs: Seq<Input>) -> Seq<Seq<char>> {
    Seq::new(inputs.len(), |i: int| spec_block(i as nat, inputs[i]))
}

/// Index correspondence: the generated document is the fixed skeleton around
/// exactly one block per descriptor, in descriptor order — the block at
/// position `i` renders the descriptor at position `i`.
pub proof fn lemma_index_correspondence(inputs: Seq<Input>)
    ensures
        block_list(inputs).len() == inputs.len(),
        forall|i: int| 0 <= i < inputs.len() ==> #[trigger] block_list(inputs)[i]
            == spec_block(i as nat, inputs[i]),
        spec_blocks(inputs) == block_list(inputs).flatten(),
        spec_document(inputs) == spec_beginning() + block_list(inputs).flatten() + spec_end(),
    decreases inputs.len(),
{
    if inputs.len() == 0 {
        assert(block_list(inputs) =~~= Seq::<Seq<char>>::empty());
        assert(block_list(inputs).flatten() =~= spec_blocks(inputs));
    } else {
        lemma_index_correspondence(inputs.drop_last());
        let bl = block_list(inputs);
        assert(bl.drop_last() =~~= block_list(inputs.drop_last()));
        bl.lemma_flatten_and_flatten_alt_are_equivalent();
        bl.drop_last().lemma_flatten_and_flatten_alt_are_equivalent();
        assert(bl.flatten_alt() == bl.drop_last().flatten_alt() + bl.last());
        assert(bl.last() == spec_block((inputs.len() - 1) as nat, inputs.last()));
        assert(bl.flatten() =~= spec_blocks(inputs));
    }
}

/// The opening of one block's label element: the text every block starts
/// with, followed by the block's own index in decimal.
pub open spec fn index_marker(index: nat) -> Seq<char> {
    "<label for=\"exampleInput"@ + dec_digits(index) + "\""@
}

/// Each block begins with the marker of its own index, so each rendered
/// element is addressable by the index of the descriptor it came from.
pub proof fn lemma_block_begins_with_marker(index: nat, input: Input)
    ensures
        spec_block(index, input).len() >= index_marker(index).len(),
        spec_block(index, input).take(index_marker(index).len() as int) == index_marker(index),
{
    reveal_strlit("<label for=\"exampleInput");
    reveal_strlit("\"");
    reveal_strlit("\" class=\"col-sm-2 col-form-label mt-3\"><i>x<sub>");
    assert(spec_block(index, input).take(index_marker(index).len() as int) =~= index_marker(
        index,
    ));
}

proof fn lemma_dec_digits_len(n: nat)
    ensures
        dec_digits(n).len() >= 1,
        n >= 10 ==> dec_digits(n).len() >= 2,
    decreases n,
{
    if n >= 10 {
        lemma_dec_digits_len(n / 10);
    }
}

proof fn lemma_dec_digits_injective(a: nat, b: nat)
    requires
        dec_digits(a) == dec_digits(b),
    ensures
        a == b,
    decreases a,
{
    lemma_dec_digits_len(a);
    lemma_dec_digits_len(b);
    if a < 10 && b < 10 {
        assert(dec_digits(a)[0] == digit_char(a));
        assert(dec_digits(b)[0] == digit_char(b));
    } else if a >= 10 && b >= 10 {
        assert(dec_digits(a).last() == digit_char(a % 10));
        assert(dec_digits(b).last() == digit_char(b % 10));
        assert(a % 10 == b % 10);
        assert(dec_digits(a).drop_last() =~= dec_digits(a / 10));
        assert(dec_digits(b).drop_last() =~= dec_digits(b / 10));
        lemma_dec_digits_injective(a / 10, b / 10);
        vstd::arithmetic::div_mod::lemma_fundamental_div_mod(a as int, 10);
        vstd::arithmetic::div_mod::lemma_fundamental_div_mod(b as int, 10);
    } else {
        assert(false);
    }
}

/// Uniqueness of addressing: blocks of distinct indices begin with distinct
/// markers, so an element of the generated document is addressable by its
/// descriptor's index alone.
pub proof fn lemma_markers_distinct(i: nat, j: nat)
    requires
        i != j,
    ensures
        index_marker(i) != index_marker(j),
{
    reveal_strlit("<label for=\"exampleInput");
    reveal_strlit("\"");
    let head = "<label for=\"exampleInput"@;
    if dec_digits(i).len() == dec_digits(j).len() {
        if index_marker(i) == index_marker(j) {
            assert(dec_digits(i) =~= dec_digits(j)) by {
                assert forall|k: int| 0 <= k < dec_digits(i).len() implies dec_digits(i)[k]
                    == dec_digits(j)[k] by {
                    assert(index_marker(i)[head.len() + k] == dec_digits(i)[k]);
                    assert(index_marker(j)[head.len() + k] == dec_digits(j)[k]);
                }
            }
            lemma_dec_digits_injective(i, j);
        }
    } else {
        assert(index_marker(i).len() != index_marker(j).len());
    }
}

/// Any two documents generated from the same descriptor sequence are equal:
/// `generate` promises a result determined by the sequence alone, so whatever
/// two calls on equal sequences return is the same text.
pub proof fn lemma_generate_deterministic(
    inputs: Seq<Input>,
    first: Seq<char>,
    second: Seq<char>,
)
    requires
        first == spec_document(inputs),
        second == spec_document(inputs),
    ensures
        first == second,
{
}

} // verus!
