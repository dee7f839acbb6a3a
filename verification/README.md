# esp-ds

Provisioning of ESP32-C3 devices with RSA-3072 Digital Signature (DS) keys, and the driver
logic that signs with such a key. The library under `src/` is verified with Verus.

## The library

| Module | What it holds |
|---|---|
| `words` | bytes, 32-bit words and the numbers they stand for |
| `ds` | key sizes, operand widths, errors, signatures, PKCS#1 v1.5 padding |
| `program` | the words that a signing operation loads, and what becomes of the words it reads |
| `signing` | the signing operation as a state machine |
| `signing_laws` | what holds of whole signing operations |
| `signature_laws` | what holds of the signatures that a provisioned device makes |
| `bignum`, `montgomery` | numbers of any size, inverses modulo 2^32, Montgomery constants |
| `crypto` | SHA-256, HMAC, AES-256-CBC and random keys, from the RustCrypto crates and `rand` |
| `key` | the private key of a device, read from a PEM file |
| `params` | the DS parameters of a key, and their encryption |
| `factory` | the image of the secure certificate partition, and how a device reads it |
| `provisioning_laws` | what holds between a key, its image and what the driver loads |
| `text`, `tools` | what the output of `espefuse` and `esptool` says |
| `plan` | what a run does, as its options say |
| `tools_laws` | what holds of tool output and of the actions of a run |

What the outside crates compute is stated, not proved: those statements stand in `crypto`,
`bignum`, `key`, `factory` and `text`, each above the function that makes the call.

## The application

`app/` is the command line tool, and the loop that performs on real registers what a signing
operation asks for.

```bash
esp-ds --ca-cert cacert.pem --device-cert device.crt --device-key device.key \
       --port /dev/ttyACM0 --burn-efuse
```
