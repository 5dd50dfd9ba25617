# kube_cel

Kubernetes CEL extension functions and client-side CRD validation, with the
logic verified by Verus.

- `src/` is the verified library: quantities, semantic versions, IP addresses
  and CIDR ranges, URLs, string functions, `format`, named formats, math and
  bit operations, base64 and JSON Patch key escaping, field-name escaping,
  schema compilation, the schema walks of validation, schema defaults, the
  judging of rule outcomes, ValidatingAdmissionPolicy variables and results,
  and static analysis of rules. Calls into `cel`, `semver`, `ipnet`, `url` and
  `base64` go through small trusted wrappers whose contracts say what the
  library relies on (for `cel`: whether a source parses, the variables it
  references, and the shape of its syntax tree, each as a function of the
  source text).
- `app/` registers the functions on a `cel::Context`, converts between
  `serde_json`, the library's `Json` and CEL values, runs compiled programs,
  and holds the floating-point functions and the `serde` types.
- `tests/` exercises the library through its public functions.

Laws that the library proves, among others: compiled and raw schema walks
meet the same values at matching nodes and, for a rule runner that depends
on the rule and the stop alone, report the same errors; compiled and raw defaulting agree;
defaulting keeps what an object has and stops at the same depth at which
validation fails closed; quantity comparison is antisymmetric and subtraction
undoes addition; masking a CIDR range keeps its members.
