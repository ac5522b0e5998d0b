# ohiro_wallet

An investment wallet served over HTTP: users sign up and sign in with a
session cookie, record assets and purchases, and see on their dashboard the
quantity held and the gain or loss of each asset. Money is kept in cents and
quantities in thousandths, as integers.

## Layout

- `src/` — the library, verified with Verus:
  - `text.rs`: trimming, case, decimal digits and UTF-8 lengths of text;
  - `utils.rs`: parsing amounts typed by users and the text shown for money
    and quantities, with the laws that what is shown reads back the same;
  - `store.rs`: the in-memory store, its invariant, registration, sign-in,
    assets, purchases, the dashboard and the demo data;
  - `auth.rs`: session tokens (HMAC-SHA256, base64url), their claims and the
    session cookie;
  - `passwords.rs`: password hashing through `password-auth`;
  - `web.rs`: what the dashboard forms do to the store;
  - `errors.rs`, `models.rs`, `views.rs`, `app.rs`: errors with their status
    and message, records, page data and settings.
- `tests/` — tests of the library.
- `app/` — the HTTP service around the library (axum, askama templates,
  serde, the clock, the environment and the lock around the store).
